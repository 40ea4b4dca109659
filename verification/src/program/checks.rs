//! What the instructions ask of their accounts and arguments, in the order in
//! which they ask it.

use vstd::prelude::*;
use crate::address::{
    derive_address, is_token_account, unpack_token_account, AccountView, Pubkey, TokenAccount, SYSTEM_PROGRAM_ID,
    TOKEN_PROGRAM_ID,
};
use crate::bytes::{byte_ranges, field_at, le_value_in_range, read_le, same_bytes};
use crate::constants::{MAX_ACCOUNTS, MAX_ORACLE_PRICE};
use crate::layout::ENGINE_SIZE;
use crate::model::{funding_envelope, params_valid};
use crate::oracle::state::{feed_of, Feed, STALE_SLOTS};
use crate::program::error::PercolatorError;
use crate::program::instruction::{PlaceOrderArgs, RiskParamsArgs};
use crate::program::operations::PROTOCOL_LP_SLOT;
use crate::program::state::{header_bytes, header_of, vault_address, SlabHeader, VAULT_SEED};
use crate::types::RiskEngine;

verus! {

/// The least fee of a listing, in lamports.
pub const MIN_MARKET_CREATION_FEE_LAMPORTS: u64 = 500_000_000;

/// The same under the name that clients know.
pub const MARKET_CREATION_FEE_LAMPORTS: u64 = MIN_MARKET_CREATION_FEE_LAMPORTS;

/// The account that listing fees go to.
pub const TREASURY_PUBKEY: [u8; 32] = [
    198, 79, 50, 210, 52, 233, 233, 96, 78, 231, 103, 20, 61, 214, 242, 95, 33, 136, 165, 7, 90, 191, 131, 145, 117, 226,
    176, 72, 254, 148, 8, 55,
];

/// Size of a slab account.
pub open spec fn slab_size() -> int {
    SlabHeader::LEN + ENGINE_SIZE
}

/// The account is a slab of the program, as far as one can tell from outside.
pub open spec fn slab_shape(program: Pubkey, slab: AccountView) -> Result<(), PercolatorError> {
    if slab.owner != program {
        Err(PercolatorError::SlabNotInitialized)
    } else if slab.data@.len() != slab_size() {
        Err(PercolatorError::SlabSizeMismatch)
    } else {
        Ok(())
    }
}

/// What an instruction that moves tokens asks of its accounts: the holder signs,
/// what changes is writable, the slab is the program's, and the tokens move
/// through the token program.
pub open spec fn token_accounts_ok(
    program: Pubkey,
    slab: AccountView,
    holder: AccountView,
    holder_ta: AccountView,
    vault_ta: AccountView,
    token_program: AccountView,
) -> Result<(), PercolatorError> {
    if !holder.is_signer {
        Err(PercolatorError::MissingSigner)
    } else if !slab.is_writable || !holder_ta.is_writable || !vault_ta.is_writable {
        Err(PercolatorError::AccountNotWritable)
    } else {
        match slab_shape(program, slab) {
            Err(e) => Err(e),
            Ok(_) => {
                if token_program.key.bytes != TOKEN_PROGRAM_ID {
                    Err(PercolatorError::InvalidTokenProgram)
                } else {
                    Ok(())
                }
            },
        }
    }
}

/// The header of a slab whose engine is in place.
pub open spec fn live_header(slab: AccountView) -> Result<SlabHeader, PercolatorError> {
    let h = header_of(slab.data@);
    if h.initialized == 0 {
        Err(PercolatorError::SlabNotInitialized)
    } else {
        Ok(h)
    }
}

/// The account is a token account of the token program.
pub open spec fn is_tokens(ta: AccountView) -> bool {
    ta.owner.bytes == TOKEN_PROGRAM_ID && is_token_account(ta.data@)
}

pub open spec fn mint_of(ta: AccountView) -> Seq<u8> {
    ta.data@.subrange(0, 32)
}

pub open spec fn authority_of(ta: AccountView) -> Seq<u8> {
    ta.data@.subrange(32, 64)
}

/// What is asked of the vault and of the holder's token account: the vault is the
/// one that the slab derives, both hold the slab's mint, the holder's is the
/// holder's own, and, where the vault is to pay, it is its own authority.
pub open spec fn vault_ok(
    program: Pubkey,
    slab: AccountView,
    h: SlabHeader,
    holder: AccountView,
    holder_ta: AccountView,
    vault_ta: AccountView,
    vault_pays: bool,
) -> Result<(), PercolatorError> {
    if vault_address(slab.key, h.vault_bump, program) != Some(vault_ta.key.bytes@) {
        Err(PercolatorError::VaultPdaMismatch)
    } else if !is_tokens(holder_ta) || !is_tokens(vault_ta) {
        Err(PercolatorError::TokenAccountWrongOwner)
    } else if mint_of(holder_ta) != h.mint.bytes@ || mint_of(vault_ta) != h.mint.bytes@ {
        Err(PercolatorError::TokenAccountWrongMint)
    } else if authority_of(holder_ta) != holder.key.bytes@ {
        Err(PercolatorError::TokenAccountWrongOwner)
    } else if vault_pays && authority_of(vault_ta) != vault_ta.key.bytes@ {
        Err(PercolatorError::VaultPdaMismatch)
    } else {
        Ok(())
    }
}

/// The price in an oracle account: its first eight bytes.
pub open spec fn oracle_price(data: Seq<u8>) -> Result<u64, PercolatorError> {
    if data.len() < 8 {
        Err(PercolatorError::StaleOracle)
    } else if !(0 < field_at(data, 0, 8) <= MAX_ORACLE_PRICE) {
        Err(PercolatorError::StaleOracle)
    } else {
        Ok(field_at(data, 0, 8) as u64)
    }
}

/// A feed that is too old, or not set up, cannot be traded on. An account that is
/// too short for a feed shows its price alone.
pub open spec fn feed_is_fresh(data: Seq<u8>, now: u64) -> bool {
    data.len() >= Feed::LEN ==> {
        &&& feed_of(data).initialized != 0
        &&& now - feed_of(data).last_update_slot <= STALE_SLOTS
    }
}

/// The arguments of an order make sense.
pub open spec fn order_ok(a: PlaceOrderArgs) -> Result<(), PercolatorError> {
    if a.size == 0 {
        Err(PercolatorError::ZeroSize)
    } else if a.side > 1 {
        Err(PercolatorError::InvalidSide)
    } else if a.min_price > a.max_price {
        Err(PercolatorError::SlippageExceeded)
    } else {
        Ok(())
    }
}

/// The price of an order: that of the slab's oracle, within the limits of the
/// order.
pub open spec fn order_price(
    h: SlabHeader,
    oracle: AccountView,
    a: PlaceOrderArgs,
    now: u64,
) -> Result<u64, PercolatorError> {
    if oracle.key != h.oracle {
        Err(PercolatorError::StaleOracle)
    } else if !feed_is_fresh(oracle.data@, now) {
        Err(PercolatorError::StaleOracle)
    } else {
        match oracle_price(oracle.data@) {
            Err(e) => Err(e),
            Ok(price) => {
                if !(a.min_price <= price <= a.max_price) {
                    Err(PercolatorError::SlippageExceeded)
                } else {
                    Ok(price)
                }
            },
        }
    }
}

/// Who may be liquidated: a slot that exists, other than the LP's.
pub open spec fn victim_ok(victim: u16) -> Result<(), PercolatorError> {
    if victim == PROTOCOL_LP_SLOT {
        Err(PercolatorError::ProtocolLpNotLiquidatable)
    } else if victim >= MAX_ACCOUNTS {
        Err(PercolatorError::InvalidVictimSlot)
    } else {
        Ok(())
    }
}

/// Every byte of the header is zero: nothing was written there yet.
pub open spec fn header_is_empty(data: Seq<u8>) -> bool {
    forall|j: int| 0 <= j < SlabHeader::LEN ==> data[j] == 0
}

/// What is asked of a slab before its header is written.
pub open spec fn slab_is_new(
    program: Pubkey,
    slab: AccountView,
    rent_exempt: bool,
    vault_bump: u8,
) -> Result<(), PercolatorError> {
    if slab.data@.len() != slab_size() {
        Err(PercolatorError::SlabSizeMismatch)
    } else if slab.owner != program {
        Err(PercolatorError::SlabAlreadyInitialized)
    } else if !rent_exempt {
        Err(PercolatorError::SlabSizeMismatch)
    } else if !header_is_empty(slab.data@) {
        Err(PercolatorError::SlabAlreadyInitialized)
    } else if vault_address(slab.key, vault_bump, program) is None {
        Err(PercolatorError::VaultPdaMismatch)
    } else {
        Ok(())
    }
}

/// What is asked before an engine is put into a slab. Gives the slab's header.
pub open spec fn engine_is_new(
    program: Pubkey,
    slab: AccountView,
    creator: AccountView,
) -> Result<SlabHeader, PercolatorError> {
    if !slab.is_writable {
        Err(PercolatorError::AccountNotWritable)
    } else {
        match slab_shape(program, slab) {
            Err(e) => Err(e),
            Ok(_) => {
                if !creator.is_signer {
                    Err(PercolatorError::MissingSigner)
                } else {
                    let h = header_of(slab.data@);
                    if h.mint.bytes == SYSTEM_PROGRAM_ID
                        && h.oracle.bytes == SYSTEM_PROGRAM_ID
                        && h.creator.bytes == SYSTEM_PROGRAM_ID {
                        Err(PercolatorError::SlabNotInitialized)
                    } else if h.creator != creator.key {
                        Err(PercolatorError::WrongSigner)
                    } else if h.initialized != 0 {
                        Err(PercolatorError::AlreadyInitialized)
                    } else {
                        Ok(h)
                    }
                }
            },
        }
    }
}

/// Parameters that a new market may have: valid ones, with a margin to open a
/// position, and with a funding rate that can be charged over the whole lifetime
/// asked for.
pub open spec fn risk_params_ok(p: RiskParamsArgs, init_oracle_price: u64) -> bool {
    &&& 0 < init_oracle_price <= MAX_ORACLE_PRICE
    &&& params_valid(p.as_params())
    &&& p.initial_margin_bps != 0
    &&& p.max_accrual_dt_slots <= p.min_funding_lifetime_slots
    &&& funding_envelope(p.max_abs_funding_e9_per_slot, p.min_funding_lifetime_slots) <= i128::MAX
}

/// Refuse parameters that a market may not have.
pub fn validate_risk_params(p: &RiskParamsArgs, init_oracle_price: u64) -> (r: Result<(), PercolatorError>)
    ensures
        match r {
            Ok(_) => risk_params_ok(*p, init_oracle_price),
            Err(e) => e == PercolatorError::InvalidRiskParams && !risk_params_ok(*p, init_oracle_price),
        },
{
    if !RiskEngine::can_initialize(&p.into_engine_params(), init_oracle_price) {
        return Err(PercolatorError::InvalidRiskParams);
    }
    if p.initial_margin_bps == 0 {
        return Err(PercolatorError::InvalidRiskParams);
    }
    if p.min_funding_lifetime_slots < p.max_accrual_dt_slots {
        return Err(PercolatorError::InvalidRiskParams);
    }
    let mut longest = p.into_engine_params();
    longest.max_accrual_dt_slots = p.min_funding_lifetime_slots;
    if !RiskEngine::validate_params(&longest) {
        return Err(PercolatorError::InvalidRiskParams);
    }
    Ok(())
}

pub fn check_slab_shape(program_id: &Pubkey, slab: &AccountView) -> (r: Result<(), PercolatorError>)
    ensures
        match r {
            Ok(_) => slab_shape(*program_id, *slab) is Ok,
            Err(e) => slab_shape(*program_id, *slab) == Err::<(), PercolatorError>(e),
        },
{
    if !slab.owner.same(program_id) {
        return Err(PercolatorError::SlabNotInitialized);
    }
    if slab.data.len() != SlabHeader::LEN + ENGINE_SIZE {
        return Err(PercolatorError::SlabSizeMismatch);
    }
    Ok(())
}

pub fn check_token_accounts(
    program_id: &Pubkey,
    slab: &AccountView,
    holder: &AccountView,
    holder_ta: &AccountView,
    vault_ta: &AccountView,
    token_program: &AccountView,
) -> (r: Result<(), PercolatorError>)
    ensures
        match r {
            Ok(_) => token_accounts_ok(*program_id, *slab, *holder, *holder_ta, *vault_ta, *token_program) is Ok,
            Err(e) => token_accounts_ok(*program_id, *slab, *holder, *holder_ta, *vault_ta, *token_program) == Err::<
            (),
            PercolatorError,
            >(e),
        },
{
    if !holder.is_signer {
        return Err(PercolatorError::MissingSigner);
    }
    if !slab.is_writable || !holder_ta.is_writable || !vault_ta.is_writable {
        return Err(PercolatorError::AccountNotWritable);
    }
    check_slab_shape(program_id, slab)?;
    if !token_program.key.is(&TOKEN_PROGRAM_ID) {
        return Err(PercolatorError::InvalidTokenProgram);
    }
    Ok(())
}

/// Read the header of a slab.
pub fn read_header(slab: &AccountView) -> (h: SlabHeader)
    requires
        slab.data@.len() >= SlabHeader::LEN,
    ensures
        h == header_of(slab.data@),
        header_bytes(h) == slab.data@.subrange(0, SlabHeader::LEN as int),
{
    match SlabHeader::read_from(slab.data.as_slice()) {
        Ok(h) => h,
        Err(_) => {
            assert(false);
            SlabHeader::new(slab.key, slab.key, slab.key, 0, 0)
        },
    }
}

pub fn read_live_header(slab: &AccountView) -> (r: Result<SlabHeader, PercolatorError>)
    requires
        slab.data@.len() >= SlabHeader::LEN,
    ensures
        r == live_header(*slab),
{
    let h: SlabHeader = read_header(slab);
    if !h.is_initialized() {
        return Err(PercolatorError::SlabNotInitialized);
    }
    Ok(h)
}

fn read_tokens(ta: &AccountView) -> (r: Option<TokenAccount>)
    ensures
        match r {
            Some(t) => is_tokens(*ta) && t.mint.bytes@ == mint_of(*ta) && t.owner.bytes@ == authority_of(*ta),
            None => !is_tokens(*ta),
        },
{
    if !ta.owner.is(&TOKEN_PROGRAM_ID) {
        return None;
    }
    unpack_token_account(ta.data.as_slice())
}

pub fn check_vault(
    program_id: &Pubkey,
    slab: &AccountView,
    h: &SlabHeader,
    holder: &AccountView,
    holder_ta: &AccountView,
    vault_ta: &AccountView,
    vault_pays: bool,
) -> (r: Result<(), PercolatorError>)
    ensures
        match r {
            Ok(_) => vault_ok(*program_id, *slab, *h, *holder, *holder_ta, *vault_ta, vault_pays) is Ok,
            Err(e) => vault_ok(*program_id, *slab, *h, *holder, *holder_ta, *vault_ta, vault_pays) == Err::<(), PercolatorError>(
                e,
            ),
        },
{
    let vault: Pubkey = derive_address(&VAULT_SEED, &slab.key, h.vault_bump, program_id).ok_or(PercolatorError::VaultPdaMismatch)?;
    if !same_bytes(&vault.bytes, &vault_ta.key.bytes) {
        return Err(PercolatorError::VaultPdaMismatch);
    }
    let held: TokenAccount = read_tokens(holder_ta).ok_or(PercolatorError::TokenAccountWrongOwner)?;
    let vaulted: TokenAccount = read_tokens(vault_ta).ok_or(PercolatorError::TokenAccountWrongOwner)?;
    if !same_bytes(&held.mint.bytes, &h.mint.bytes) || !same_bytes(&vaulted.mint.bytes, &h.mint.bytes) {
        return Err(PercolatorError::TokenAccountWrongMint);
    }
    if !same_bytes(&held.owner.bytes, &holder.key.bytes) {
        return Err(PercolatorError::TokenAccountWrongOwner);
    }
    if vault_pays && !same_bytes(&vaulted.owner.bytes, &vault_ta.key.bytes) {
        return Err(PercolatorError::VaultPdaMismatch);
    }
    Ok(())
}

/// Read the price in an oracle account.
pub fn read_oracle_price(data: &[u8]) -> (r: Result<u64, PercolatorError>)
    ensures
        r == oracle_price(data@),
{
    if data.len() < 8 {
        return Err(PercolatorError::StaleOracle);
    }
    proof {
        le_value_in_range(data@.subrange(0, 8));
        byte_ranges();
    }
    let price: u64 = read_le(data, 0, 8) as u64;
    if price == 0 || price > MAX_ORACLE_PRICE {
        return Err(PercolatorError::StaleOracle);
    }
    Ok(price)
}

fn is_fresh_feed(data: &[u8], now: u64) -> (r: bool)
    ensures
        r == feed_is_fresh(data@, now),
{
    match Feed::read_from(data) {
        Ok(f) => f.is_initialized() && now.saturating_sub(f.last_update_slot) <= STALE_SLOTS,
        Err(_) => true,
    }
}

pub fn check_order(a: &PlaceOrderArgs) -> (r: Result<(), PercolatorError>)
    ensures
        match r {
            Ok(_) => order_ok(*a) is Ok,
            Err(e) => order_ok(*a) == Err::<(), PercolatorError>(e),
        },
{
    if a.size == 0 {
        return Err(PercolatorError::ZeroSize);
    }
    if a.side > 1 {
        return Err(PercolatorError::InvalidSide);
    }
    if a.max_price < a.min_price {
        return Err(PercolatorError::SlippageExceeded);
    }
    Ok(())
}

pub fn read_order_price(
    h: &SlabHeader,
    oracle: &AccountView,
    a: &PlaceOrderArgs,
    now: u64,
) -> (r: Result<u64, PercolatorError>)
    ensures
        r == order_price(*h, *oracle, *a, now),
{
    if !oracle.key.same(&h.oracle) {
        return Err(PercolatorError::StaleOracle);
    }
    if !is_fresh_feed(oracle.data.as_slice(), now) {
        return Err(PercolatorError::StaleOracle);
    }
    let price: u64 = read_oracle_price(oracle.data.as_slice())?;
    if price < a.min_price || price > a.max_price {
        return Err(PercolatorError::SlippageExceeded);
    }
    Ok(price)
}

pub fn check_victim(victim: u16) -> (r: Result<(), PercolatorError>)
    ensures
        match r {
            Ok(_) => victim_ok(victim) is Ok,
            Err(e) => victim_ok(victim) == Err::<(), PercolatorError>(e),
        },
{
    if victim == PROTOCOL_LP_SLOT {
        return Err(PercolatorError::ProtocolLpNotLiquidatable);
    }
    if victim as usize >= MAX_ACCOUNTS {
        return Err(PercolatorError::InvalidVictimSlot);
    }
    Ok(())
}

fn is_header_empty(data: &[u8]) -> (r: bool)
    requires
        data@.len() >= SlabHeader::LEN,
    ensures
        r == header_is_empty(data@),
{
    let mut i: usize = 0;
    while i < SlabHeader::LEN
        invariant
            i <= SlabHeader::LEN,
            data@.len() >= SlabHeader::LEN,
            forall|j: int| 0 <= j < i ==> data@[j] == 0,
        decreases SlabHeader::LEN - i,
    {
        if data[i] != 0 {
            return false;
        }
        i = i + 1;
    }
    true
}

pub fn check_new_slab(
    program_id: &Pubkey,
    slab: &AccountView,
    rent_exempt: bool,
    vault_bump: u8,
) -> (r: Result<(), PercolatorError>)
    ensures
        match r {
            Ok(_) => slab_is_new(*program_id, *slab, rent_exempt, vault_bump) is Ok,
            Err(e) => slab_is_new(*program_id, *slab, rent_exempt, vault_bump) == Err::<(), PercolatorError>(e),
        },
{
    if slab.data.len() != SlabHeader::LEN + ENGINE_SIZE {
        return Err(PercolatorError::SlabSizeMismatch);
    }
    if !slab.owner.same(program_id) {
        return Err(PercolatorError::SlabAlreadyInitialized);
    }
    if !rent_exempt {
        return Err(PercolatorError::SlabSizeMismatch);
    }
    if !is_header_empty(slab.data.as_slice()) {
        return Err(PercolatorError::SlabAlreadyInitialized);
    }
    derive_address(&VAULT_SEED, &slab.key, vault_bump, program_id).ok_or(PercolatorError::VaultPdaMismatch)?;
    Ok(())
}

pub fn check_new_engine(
    program_id: &Pubkey,
    slab: &AccountView,
    creator: &AccountView,
) -> (r: Result<SlabHeader, PercolatorError>)
    ensures
        r == engine_is_new(*program_id, *slab, *creator),
        r is Ok ==> slab.data@.len() == slab_size(),
{
    if !slab.is_writable {
        return Err(PercolatorError::AccountNotWritable);
    }
    check_slab_shape(program_id, slab)?;
    if !creator.is_signer {
        return Err(PercolatorError::MissingSigner);
    }
    let h: SlabHeader = read_header(slab);
    if h.mint.is(&SYSTEM_PROGRAM_ID) && h.oracle.is(&SYSTEM_PROGRAM_ID) && h.creator.is(&SYSTEM_PROGRAM_ID) {
        return Err(PercolatorError::SlabNotInitialized);
    }
    if !h.creator.same(&creator.key) {
        return Err(PercolatorError::WrongSigner);
    }
    if h.is_initialized() {
        return Err(PercolatorError::AlreadyInitialized);
    }
    Ok(h)
}

} // verus!
