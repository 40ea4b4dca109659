//! The byte image of the engine: which field stands where. Fields follow each
//! other in order, each at the next multiple of its alignment: a plain 128-bit
//! integer is aligned to sixteen bytes, a two-word one ([`U128`], [`I128`]) to
//! eight.

use vstd::prelude::*;
use crate::bytes::{
    append_key, append_le, append_zeros, byte_range, byte_ranges, extends, field_at, from_twos, key_at, le_value_in_range,
    read_32, read_le, to_twos, twos,
};
use crate::constants::{ADL_ONE, BITMAP_WORDS, MAX_ACCOUNTS, MAX_POSITION_ABS_Q, NIL_SLOT};
use crate::int128::{I128, U128};
use crate::model::{basis_ok, bit_of, link_ok, EngineState};
use crate::types::{Account, InsuranceFund, MarketMode, RiskEngine, RiskParams, SideMode};
use crate::wide_math::abs_i128;

verus! {

/// Size of the engine image.
pub const ENGINE_SIZE: usize = 1590544;

/// Size of an account in it.
pub const ACCOUNT_SIZE: usize = 384;

pub const OFF_VAULT: usize = 0;

pub const OFF_INSURANCE_FUND: usize = 16;

pub const OFF_PARAMS_MAINTENANCE_MARGIN_BPS: usize = 32;

pub const OFF_PARAMS_INITIAL_MARGIN_BPS: usize = 40;

pub const OFF_PARAMS_TRADING_FEE_BPS: usize = 48;

pub const OFF_PARAMS_MAX_ACCOUNTS: usize = 56;

pub const OFF_PARAMS_MAX_CRANK_STALENESS_SLOTS: usize = 64;

pub const OFF_PARAMS_LIQUIDATION_FEE_BPS: usize = 72;

pub const OFF_PARAMS_LIQUIDATION_FEE_CAP: usize = 80;

pub const OFF_PARAMS_MIN_LIQUIDATION_ABS: usize = 96;

pub const OFF_PARAMS_MIN_INITIAL_DEPOSIT: usize = 112;

pub const OFF_PARAMS_MIN_NONZERO_MM_REQ: usize = 128;

pub const OFF_PARAMS_MIN_NONZERO_IM_REQ: usize = 144;

pub const OFF_PARAMS_INSURANCE_FLOOR: usize = 160;

pub const OFF_PARAMS_H_MIN: usize = 176;

pub const OFF_PARAMS_H_MAX: usize = 184;

pub const OFF_PARAMS_RESOLVE_PRICE_DEVIATION_BPS: usize = 192;

pub const OFF_PARAMS_MAX_ACCRUAL_DT_SLOTS: usize = 200;

pub const OFF_PARAMS_MAX_ABS_FUNDING_E9_PER_SLOT: usize = 208;

pub const OFF_PARAMS_MIN_FUNDING_LIFETIME_SLOTS: usize = 216;

pub const OFF_PARAMS_MAX_ACTIVE_POSITIONS_PER_SIDE: usize = 224;

pub const OFF_CURRENT_SLOT: usize = 240;

pub const OFF_MARKET_MODE: usize = 248;

pub const OFF_RESOLVED_PRICE: usize = 256;

pub const OFF_RESOLVED_SLOT: usize = 264;

pub const OFF_RESOLVED_PAYOUT_H_NUM: usize = 272;

pub const OFF_RESOLVED_PAYOUT_H_DEN: usize = 288;

pub const OFF_RESOLVED_PAYOUT_READY: usize = 304;

pub const OFF_RESOLVED_K_LONG_TERMINAL_DELTA: usize = 320;

pub const OFF_RESOLVED_K_SHORT_TERMINAL_DELTA: usize = 336;

pub const OFF_RESOLVED_LIVE_PRICE: usize = 352;

pub const OFF_LAST_CRANK_SLOT: usize = 360;

pub const OFF_C_TOT: usize = 368;

pub const OFF_PNL_POS_TOT: usize = 384;

pub const OFF_PNL_MATURED_POS_TOT: usize = 400;

pub const OFF_GC_CURSOR: usize = 416;

pub const OFF_ADL_MULT_LONG: usize = 432;

pub const OFF_ADL_MULT_SHORT: usize = 448;

pub const OFF_ADL_COEFF_LONG: usize = 464;

pub const OFF_ADL_COEFF_SHORT: usize = 480;

pub const OFF_ADL_EPOCH_LONG: usize = 496;

pub const OFF_ADL_EPOCH_SHORT: usize = 504;

pub const OFF_ADL_EPOCH_START_K_LONG: usize = 512;

pub const OFF_ADL_EPOCH_START_K_SHORT: usize = 528;

pub const OFF_OI_EFF_LONG_Q: usize = 544;

pub const OFF_OI_EFF_SHORT_Q: usize = 560;

pub const OFF_SIDE_MODE_LONG: usize = 576;

pub const OFF_SIDE_MODE_SHORT: usize = 577;

pub const OFF_STORED_POS_COUNT_LONG: usize = 584;

pub const OFF_STORED_POS_COUNT_SHORT: usize = 592;

pub const OFF_STALE_ACCOUNT_COUNT_LONG: usize = 600;

pub const OFF_STALE_ACCOUNT_COUNT_SHORT: usize = 608;

pub const OFF_PHANTOM_DUST_BOUND_LONG_Q: usize = 624;

pub const OFF_PHANTOM_DUST_BOUND_SHORT_Q: usize = 640;

pub const OFF_MATERIALIZED_ACCOUNT_COUNT: usize = 656;

pub const OFF_NEG_PNL_ACCOUNT_COUNT: usize = 664;

pub const OFF_LAST_ORACLE_PRICE: usize = 672;

pub const OFF_FUND_PX_LAST: usize = 680;

pub const OFF_LAST_MARKET_SLOT: usize = 688;

pub const OFF_F_LONG_NUM: usize = 704;

pub const OFF_F_SHORT_NUM: usize = 720;

pub const OFF_F_EPOCH_START_LONG_NUM: usize = 736;

pub const OFF_F_EPOCH_START_SHORT_NUM: usize = 752;

pub const OFF_USED: usize = 768;

pub const OFF_NUM_USED_ACCOUNTS: usize = 1280;

pub const OFF_FREE_HEAD: usize = 1282;

pub const OFF_NEXT_FREE: usize = 1284;

pub const OFF_PREV_FREE: usize = 9476;

pub const OFF_ACCOUNTS: usize = 17680;

pub const ACC_CAPITAL: usize = 0;

pub const ACC_KIND: usize = 16;

pub const ACC_PNL: usize = 32;

pub const ACC_RESERVED_PNL: usize = 48;

pub const ACC_POSITION_BASIS_Q: usize = 64;

pub const ACC_ADL_A_BASIS: usize = 80;

pub const ACC_ADL_K_SNAP: usize = 96;

pub const ACC_F_SNAP: usize = 112;

pub const ACC_ADL_EPOCH_SNAP: usize = 128;

pub const ACC_MATCHER_PROGRAM: usize = 136;

pub const ACC_MATCHER_CONTEXT: usize = 168;

pub const ACC_OWNER: usize = 200;

pub const ACC_FEE_CREDITS: usize = 232;

pub const ACC_LAST_FEE_SLOT: usize = 248;

pub const ACC_SCHED_PRESENT: usize = 256;

pub const ACC_SCHED_REMAINING_Q: usize = 272;

pub const ACC_SCHED_ANCHOR_Q: usize = 288;

pub const ACC_SCHED_START_SLOT: usize = 304;

pub const ACC_SCHED_HORIZON: usize = 312;

pub const ACC_SCHED_RELEASE_Q: usize = 320;

pub const ACC_PENDING_PRESENT: usize = 336;

pub const ACC_PENDING_REMAINING_Q: usize = 352;

pub const ACC_PENDING_HORIZON: usize = 368;

pub const ACC_PENDING_CREATED_SLOT: usize = 376;

/// The byte of a market mode.
pub open spec fn market_mode_code(m: MarketMode) -> u8 {
    match m {
        MarketMode::Live => 0,
        MarketMode::Resolved => 1,
    }
}

/// The byte of a side mode.
pub open spec fn side_mode_code(m: SideMode) -> u8 {
    match m {
        SideMode::Normal => 0,
        SideMode::DrainOnly => 1,
        SideMode::ResetPending => 2,
    }
}

pub fn market_mode_byte(m: MarketMode) -> (r: u8)
    ensures
        r == market_mode_code(m),
{
    match m {
        MarketMode::Live => 0,
        MarketMode::Resolved => 1,
    }
}

pub fn side_mode_byte(m: SideMode) -> (r: u8)
    ensures
        r == side_mode_code(m),
{
    match m {
        SideMode::Normal => 0,
        SideMode::DrainOnly => 1,
        SideMode::ResetPending => 2,
    }
}

fn market_mode_of(b: u128) -> (r: Option<MarketMode>)
    ensures
        match r {
            Some(m) => market_mode_code(m) == b,
            None => b > 1,
        },
{
    if b == 0 {
        Some(MarketMode::Live)
    } else if b == 1 {
        Some(MarketMode::Resolved)
    } else {
        None
    }
}

fn side_mode_of(b: u128) -> (r: Option<SideMode>)
    ensures
        match r {
            Some(m) => side_mode_code(m) == b,
            None => b > 2,
        },
{
    if b == 0 {
        Some(SideMode::Normal)
    } else if b == 1 {
        Some(SideMode::DrainOnly)
    } else if b == 2 {
        Some(SideMode::ResetPending)
    } else {
        None
    }
}

/// Where the vault, the insurance fund and the parameters stand.
pub open spec fn funds_and_params_at(b: Seq<u8>, s: EngineState) -> bool {
    &&& field_at(b, OFF_VAULT as int, 16) == s.vault.v
    &&& field_at(b, OFF_INSURANCE_FUND as int, 16) == s.insurance_fund.balance.v
    &&& field_at(b, OFF_PARAMS_MAINTENANCE_MARGIN_BPS as int, 8) == s.params.maintenance_margin_bps
    &&& field_at(b, OFF_PARAMS_INITIAL_MARGIN_BPS as int, 8) == s.params.initial_margin_bps
    &&& field_at(b, OFF_PARAMS_TRADING_FEE_BPS as int, 8) == s.params.trading_fee_bps
    &&& field_at(b, OFF_PARAMS_MAX_ACCOUNTS as int, 8) == s.params.max_accounts
    &&& field_at(b, OFF_PARAMS_MAX_CRANK_STALENESS_SLOTS as int, 8) == s.params.max_crank_staleness_slots
    &&& field_at(b, OFF_PARAMS_LIQUIDATION_FEE_BPS as int, 8) == s.params.liquidation_fee_bps
    &&& field_at(b, OFF_PARAMS_LIQUIDATION_FEE_CAP as int, 16) == s.params.liquidation_fee_cap.v
    &&& field_at(b, OFF_PARAMS_MIN_LIQUIDATION_ABS as int, 16) == s.params.min_liquidation_abs.v
    &&& field_at(b, OFF_PARAMS_MIN_INITIAL_DEPOSIT as int, 16) == s.params.min_initial_deposit.v
    &&& field_at(b, OFF_PARAMS_MIN_NONZERO_MM_REQ as int, 16) == s.params.min_nonzero_mm_req
    &&& field_at(b, OFF_PARAMS_MIN_NONZERO_IM_REQ as int, 16) == s.params.min_nonzero_im_req
    &&& field_at(b, OFF_PARAMS_INSURANCE_FLOOR as int, 16) == s.params.insurance_floor.v
    &&& field_at(b, OFF_PARAMS_H_MIN as int, 8) == s.params.h_min
    &&& field_at(b, OFF_PARAMS_H_MAX as int, 8) == s.params.h_max
    &&& field_at(b, OFF_PARAMS_RESOLVE_PRICE_DEVIATION_BPS as int, 8) == s.params.resolve_price_deviation_bps
    &&& field_at(b, OFF_PARAMS_MAX_ACCRUAL_DT_SLOTS as int, 8) == s.params.max_accrual_dt_slots
    &&& field_at(b, OFF_PARAMS_MAX_ABS_FUNDING_E9_PER_SLOT as int, 8) == s.params.max_abs_funding_e9_per_slot
    &&& field_at(b, OFF_PARAMS_MIN_FUNDING_LIFETIME_SLOTS as int, 8) == s.params.min_funding_lifetime_slots
    &&& field_at(b, OFF_PARAMS_MAX_ACTIVE_POSITIONS_PER_SIDE as int, 8) == s.params.max_active_positions_per_side
}

/// Where the clock and the resolution stand.
pub open spec fn resolution_at(b: Seq<u8>, s: EngineState) -> bool {
    &&& field_at(b, OFF_CURRENT_SLOT as int, 8) == s.current_slot
    &&& field_at(b, OFF_MARKET_MODE as int, 1) == market_mode_code(s.market_mode)
    &&& field_at(b, OFF_RESOLVED_PRICE as int, 8) == s.resolved_price
    &&& field_at(b, OFF_RESOLVED_SLOT as int, 8) == s.resolved_slot
    &&& field_at(b, OFF_RESOLVED_PAYOUT_H_NUM as int, 16) == s.resolved_payout_h_num
    &&& field_at(b, OFF_RESOLVED_PAYOUT_H_DEN as int, 16) == s.resolved_payout_h_den
    &&& field_at(b, OFF_RESOLVED_PAYOUT_READY as int, 1) == s.resolved_payout_ready
    &&& field_at(b, OFF_RESOLVED_K_LONG_TERMINAL_DELTA as int, 16) == twos(s.resolved_k_long_terminal_delta as int)
    &&& field_at(b, OFF_RESOLVED_K_SHORT_TERMINAL_DELTA as int, 16) == twos(s.resolved_k_short_terminal_delta as int)
    &&& field_at(b, OFF_RESOLVED_LIVE_PRICE as int, 8) == s.resolved_live_price
}

/// Where the aggregates and the side coefficients stand.
pub open spec fn totals_at(b: Seq<u8>, s: EngineState) -> bool {
    &&& field_at(b, OFF_LAST_CRANK_SLOT as int, 8) == s.last_crank_slot
    &&& field_at(b, OFF_C_TOT as int, 16) == s.c_tot.v
    &&& field_at(b, OFF_PNL_POS_TOT as int, 16) == s.pnl_pos_tot
    &&& field_at(b, OFF_PNL_MATURED_POS_TOT as int, 16) == s.pnl_matured_pos_tot
    &&& field_at(b, OFF_GC_CURSOR as int, 2) == s.gc_cursor
    &&& field_at(b, OFF_ADL_MULT_LONG as int, 16) == s.adl_mult_long
    &&& field_at(b, OFF_ADL_MULT_SHORT as int, 16) == s.adl_mult_short
    &&& field_at(b, OFF_ADL_COEFF_LONG as int, 16) == twos(s.adl_coeff_long as int)
    &&& field_at(b, OFF_ADL_COEFF_SHORT as int, 16) == twos(s.adl_coeff_short as int)
    &&& field_at(b, OFF_ADL_EPOCH_LONG as int, 8) == s.adl_epoch_long
    &&& field_at(b, OFF_ADL_EPOCH_SHORT as int, 8) == s.adl_epoch_short
    &&& field_at(b, OFF_ADL_EPOCH_START_K_LONG as int, 16) == twos(s.adl_epoch_start_k_long as int)
    &&& field_at(b, OFF_ADL_EPOCH_START_K_SHORT as int, 16) == twos(s.adl_epoch_start_k_short as int)
}

/// Where the side states and the counters stand.
pub open spec fn sides_at(b: Seq<u8>, s: EngineState) -> bool {
    &&& field_at(b, OFF_OI_EFF_LONG_Q as int, 16) == s.oi_eff_long_q
    &&& field_at(b, OFF_OI_EFF_SHORT_Q as int, 16) == s.oi_eff_short_q
    &&& field_at(b, OFF_SIDE_MODE_LONG as int, 1) == side_mode_code(s.side_mode_long)
    &&& field_at(b, OFF_SIDE_MODE_SHORT as int, 1) == side_mode_code(s.side_mode_short)
    &&& field_at(b, OFF_STORED_POS_COUNT_LONG as int, 8) == s.stored_pos_count_long
    &&& field_at(b, OFF_STORED_POS_COUNT_SHORT as int, 8) == s.stored_pos_count_short
    &&& field_at(b, OFF_STALE_ACCOUNT_COUNT_LONG as int, 8) == s.stale_account_count_long
    &&& field_at(b, OFF_STALE_ACCOUNT_COUNT_SHORT as int, 8) == s.stale_account_count_short
    &&& field_at(b, OFF_PHANTOM_DUST_BOUND_LONG_Q as int, 16) == s.phantom_dust_bound_long_q
    &&& field_at(b, OFF_PHANTOM_DUST_BOUND_SHORT_Q as int, 16) == s.phantom_dust_bound_short_q
    &&& field_at(b, OFF_MATERIALIZED_ACCOUNT_COUNT as int, 8) == s.materialized_account_count
    &&& field_at(b, OFF_NEG_PNL_ACCOUNT_COUNT as int, 8) == s.neg_pnl_account_count
}

/// Where the price and funding state stand.
pub open spec fn funding_at(b: Seq<u8>, s: EngineState) -> bool {
    &&& field_at(b, OFF_LAST_ORACLE_PRICE as int, 8) == s.last_oracle_price
    &&& field_at(b, OFF_FUND_PX_LAST as int, 8) == s.fund_px_last
    &&& field_at(b, OFF_LAST_MARKET_SLOT as int, 8) == s.last_market_slot
    &&& field_at(b, OFF_F_LONG_NUM as int, 16) == twos(s.f_long_num as int)
    &&& field_at(b, OFF_F_SHORT_NUM as int, 16) == twos(s.f_short_num as int)
    &&& field_at(b, OFF_F_EPOCH_START_LONG_NUM as int, 16) == twos(s.f_epoch_start_long_num as int)
    &&& field_at(b, OFF_F_EPOCH_START_SHORT_NUM as int, 16) == twos(s.f_epoch_start_short_num as int)
}

/// Where the balances and the position of the account at `at` stand.
pub open spec fn balances_at(b: Seq<u8>, at: int, a: Account) -> bool {
    &&& field_at(b, at + ACC_CAPITAL, 16) == a.capital.v
    &&& field_at(b, at + ACC_KIND, 1) == a.kind
    &&& field_at(b, at + ACC_PNL, 16) == twos(a.pnl as int)
    &&& field_at(b, at + ACC_RESERVED_PNL, 16) == a.reserved_pnl
    &&& field_at(b, at + ACC_POSITION_BASIS_Q, 16) == twos(a.position_basis_q as int)
    &&& field_at(b, at + ACC_ADL_A_BASIS, 16) == a.adl_a_basis
    &&& field_at(b, at + ACC_ADL_K_SNAP, 16) == twos(a.adl_k_snap as int)
    &&& field_at(b, at + ACC_F_SNAP, 16) == twos(a.f_snap as int)
}

/// Where the epoch, the keys and the fee state of the account at `at` stand.
pub open spec fn identity_at(b: Seq<u8>, at: int, a: Account) -> bool {
    &&& field_at(b, at + ACC_ADL_EPOCH_SNAP, 8) == a.adl_epoch_snap
    &&& key_at(b, at + ACC_MATCHER_PROGRAM) == a.matcher_program@
    &&& key_at(b, at + ACC_MATCHER_CONTEXT) == a.matcher_context@
    &&& key_at(b, at + ACC_OWNER) == a.owner@
    &&& field_at(b, at + ACC_FEE_CREDITS, 16) == twos(a.fee_credits.v as int)
    &&& field_at(b, at + ACC_LAST_FEE_SLOT, 8) == a.last_fee_slot
}

/// Where the reserve buckets of the account at `at` stand.
pub open spec fn buckets_at(b: Seq<u8>, at: int, a: Account) -> bool {
    &&& field_at(b, at + ACC_SCHED_PRESENT, 1) == a.sched_present
    &&& field_at(b, at + ACC_SCHED_REMAINING_Q, 16) == a.sched_remaining_q
    &&& field_at(b, at + ACC_SCHED_ANCHOR_Q, 16) == a.sched_anchor_q
    &&& field_at(b, at + ACC_SCHED_START_SLOT, 8) == a.sched_start_slot
    &&& field_at(b, at + ACC_SCHED_HORIZON, 8) == a.sched_horizon
    &&& field_at(b, at + ACC_SCHED_RELEASE_Q, 16) == a.sched_release_q
    &&& field_at(b, at + ACC_PENDING_PRESENT, 1) == a.pending_present
    &&& field_at(b, at + ACC_PENDING_REMAINING_Q, 16) == a.pending_remaining_q
    &&& field_at(b, at + ACC_PENDING_HORIZON, 8) == a.pending_horizon
    &&& field_at(b, at + ACC_PENDING_CREATED_SLOT, 8) == a.pending_created_slot
}

/// The account image at `at`.
#[verifier::opaque]
pub open spec fn account_at(b: Seq<u8>, at: int, a: Account) -> bool {
    &&& balances_at(b, at, a)
    &&& identity_at(b, at, a)
    &&& buckets_at(b, at, a)
}

/// Where the slot tables stand: one bit of the bitmap, one link of each free
/// list direction and one account for each slot.
pub open spec fn tables_at(b: Seq<u8>, s: EngineState) -> bool {
    &&& s.used.len() == MAX_ACCOUNTS
    &&& s.next_free.len() == MAX_ACCOUNTS
    &&& s.prev_free.len() == MAX_ACCOUNTS
    &&& s.accounts.len() == MAX_ACCOUNTS
    &&& field_at(b, OFF_NUM_USED_ACCOUNTS as int, 2) == s.num_used_accounts
    &&& field_at(b, OFF_FREE_HEAD as int, 2) == s.free_head
    &&& forall|i: int| 0 <= i < MAX_ACCOUNTS ==> #[trigger] s.used[i] == bit_of(
        field_at(b, OFF_USED + 8 * (i / 64), 8) as u64,
        i % 64,
    )
    &&& forall|i: int| 0 <= i < MAX_ACCOUNTS ==> field_at(b, OFF_NEXT_FREE + 2 * i, 2) == #[trigger] s.next_free[i]
    &&& forall|i: int| 0 <= i < MAX_ACCOUNTS ==> field_at(b, OFF_PREV_FREE + 2 * i, 2) == #[trigger] s.prev_free[i]
    &&& forall|i: int|
    0 <= i < MAX_ACCOUNTS ==> account_at(b, OFF_ACCOUNTS + ACCOUNT_SIZE * i, #[trigger] s.accounts[i])
}

/// `b` is the image of `s`.
pub open spec fn engine_at(b: Seq<u8>, s: EngineState) -> bool {
    &&& b.len() == ENGINE_SIZE
    &&& funds_and_params_at(b, s)
    &&& resolution_at(b, s)
    &&& totals_at(b, s)
    &&& sides_at(b, s)
    &&& funding_at(b, s)
    &&& tables_at(b, s)
}

/// `b` is the image of some engine that the operations can work on.
pub open spec fn is_engine(b: Seq<u8>) -> bool {
    exists|s: EngineState| s.wf() && #[trigger] engine_at(b, s)
}

/// The engine with image `b`.
pub open spec fn engine_of(b: Seq<u8>) -> EngineState {
    choose|s: EngineState| s.wf() && #[trigger] engine_at(b, s)
}

/// An account is determined by its image.
pub proof fn account_image_is_unique(b: Seq<u8>, at: int, x: Account, y: Account)
    requires
        account_at(b, at, x),
        account_at(b, at, y),
    ensures
        x == y,
{
    reveal(account_at);
    assert(x.matcher_program =~= y.matcher_program);
    assert(x.matcher_context =~= y.matcher_context);
    assert(x.owner =~= y.owner);
}

/// An engine is determined by its image: whoever reads an image gets the state
/// that was written.
pub proof fn engine_image_is_unique(b: Seq<u8>, s: EngineState, t: EngineState)
    requires
        engine_at(b, s),
        engine_at(b, t),
    ensures
        s == t,
{
    assert(s.accounts =~= t.accounts) by {
        assert forall|i: int| 0 <= i < MAX_ACCOUNTS implies s.accounts[i] == t.accounts[i] by {
            account_image_is_unique(b, OFF_ACCOUNTS + ACCOUNT_SIZE * i, s.accounts[i], t.accounts[i]);
        }
    }
    assert(s.used =~= t.used);
    assert(s.next_free =~= t.next_free);
    assert(s.prev_free =~= t.prev_free);
    assert(s.market_mode == t.market_mode);
    assert(s.side_mode_long == t.side_mode_long);
    assert(s.side_mode_short == t.side_mode_short);
    assert(s.params == t.params);
    assert(s =~= t);
}

/// The image of a sound engine gives that engine back.
pub proof fn engine_of_image(b: Seq<u8>, s: EngineState)
    requires
        s.wf(),
        engine_at(b, s),
    ensures
        is_engine(b),
        engine_of(b) == s,
{
    let t = engine_of(b);
    assert(t.wf() && engine_at(b, t));
    engine_image_is_unique(b, s, t);
}

/// Append the balances and the position of the account at `at`.
fn append_balances(out: &mut Vec<u8>, at: usize, a: &Account)
    requires
        at + ACCOUNT_SIZE <= usize::MAX,
        old(out)@.len() == at + 0,
    ensures
        final(out)@.len() == at + 128,
        balances_at(final(out)@, at as int, *a),
        extends(old(out)@, final(out)@),
{
    proof {
        byte_ranges();
    }
    append_le(out, a.capital.v, 16);
    append_le(out, a.kind as u128, 1);
    append_zeros(out, 15);
    append_le(out, to_twos(a.pnl), 16);
    append_le(out, a.reserved_pnl, 16);
    append_le(out, to_twos(a.position_basis_q), 16);
    append_le(out, a.adl_a_basis, 16);
    append_le(out, to_twos(a.adl_k_snap), 16);
    append_le(out, to_twos(a.f_snap), 16);
}

/// Append the epoch, the keys and the fee state of the account at `at`.
fn append_identity(out: &mut Vec<u8>, at: usize, a: &Account)
    requires
        at + ACCOUNT_SIZE <= usize::MAX,
        old(out)@.len() == at + 128,
    ensures
        final(out)@.len() == at + 256,
        identity_at(final(out)@, at as int, *a),
        extends(old(out)@, final(out)@),
{
    proof {
        byte_ranges();
    }
    append_le(out, a.adl_epoch_snap as u128, 8);
    append_key(out, &a.matcher_program);
    append_key(out, &a.matcher_context);
    append_key(out, &a.owner);
    append_le(out, to_twos(a.fee_credits.v), 16);
    append_le(out, a.last_fee_slot as u128, 8);
}

/// Append the reserve buckets of the account at `at`.
fn append_buckets(out: &mut Vec<u8>, at: usize, a: &Account)
    requires
        at + ACCOUNT_SIZE <= usize::MAX,
        old(out)@.len() == at + 256,
    ensures
        final(out)@.len() == at + 384,
        buckets_at(final(out)@, at as int, *a),
        extends(old(out)@, final(out)@),
{
    proof {
        byte_ranges();
    }
    append_le(out, a.sched_present as u128, 1);
    append_zeros(out, 15);
    append_le(out, a.sched_remaining_q, 16);
    append_le(out, a.sched_anchor_q, 16);
    append_le(out, a.sched_start_slot as u128, 8);
    append_le(out, a.sched_horizon as u128, 8);
    append_le(out, a.sched_release_q, 16);
    append_le(out, a.pending_present as u128, 1);
    append_zeros(out, 15);
    append_le(out, a.pending_remaining_q, 16);
    append_le(out, a.pending_horizon as u128, 8);
    append_le(out, a.pending_created_slot as u128, 8);
}

/// Append the image of an account.
fn append_account(out: &mut Vec<u8>, a: &Account)
    requires
        old(out)@.len() + ACCOUNT_SIZE <= usize::MAX,
    ensures
        final(out)@.len() == old(out)@.len() + ACCOUNT_SIZE,
        account_at(final(out)@, old(out)@.len() as int, *a),
        extends(old(out)@, final(out)@),
{
    let at: usize = out.len();
    let ghost b0 = out@;
    append_balances(out, at, a);
    let ghost b1 = out@;
    append_identity(out, at, a);
    let ghost b2 = out@;
    append_buckets(out, at, a);
    proof {
        reveal(account_at);
        lemma_extends_trans(b1, b2, out@);
        lemma_extends_trans(b0, b1, out@);
    }
}

/// Read the account image at `at`.
fn read_account(src: &[u8], at: usize) -> (a: Account)
    requires
        at + ACCOUNT_SIZE <= src@.len(),
    ensures
        account_at(src@, at as int, a),
{
    let len: usize = src.len();
    proof {
        reveal(account_at);
        lemma_width(src@, at + ACC_KIND, 1);
        lemma_width(src@, at + ACC_ADL_EPOCH_SNAP, 8);
        lemma_width(src@, at + ACC_LAST_FEE_SLOT, 8);
        lemma_width(src@, at + ACC_SCHED_PRESENT, 1);
        lemma_width(src@, at + ACC_SCHED_START_SLOT, 8);
        lemma_width(src@, at + ACC_SCHED_HORIZON, 8);
        lemma_width(src@, at + ACC_PENDING_PRESENT, 1);
        lemma_width(src@, at + ACC_PENDING_HORIZON, 8);
        lemma_width(src@, at + ACC_PENDING_CREATED_SLOT, 8);
    }
    Account {
        capital: U128 { v: read_le(src, at + ACC_CAPITAL, 16) },
        kind: read_le(src, at + ACC_KIND, 1) as u8,
        pnl: from_twos(read_le(src, at + ACC_PNL, 16)),
        reserved_pnl: read_le(src, at + ACC_RESERVED_PNL, 16),
        position_basis_q: from_twos(read_le(src, at + ACC_POSITION_BASIS_Q, 16)),
        adl_a_basis: read_le(src, at + ACC_ADL_A_BASIS, 16),
        adl_k_snap: from_twos(read_le(src, at + ACC_ADL_K_SNAP, 16)),
        f_snap: from_twos(read_le(src, at + ACC_F_SNAP, 16)),
        adl_epoch_snap: read_le(src, at + ACC_ADL_EPOCH_SNAP, 8) as u64,
        matcher_program: read_32(src, at + ACC_MATCHER_PROGRAM),
        matcher_context: read_32(src, at + ACC_MATCHER_CONTEXT),
        owner: read_32(src, at + ACC_OWNER),
        fee_credits: I128 { v: from_twos(read_le(src, at + ACC_FEE_CREDITS, 16)) },
        last_fee_slot: read_le(src, at + ACC_LAST_FEE_SLOT, 8) as u64,
        sched_present: read_le(src, at + ACC_SCHED_PRESENT, 1) as u8,
        sched_remaining_q: read_le(src, at + ACC_SCHED_REMAINING_Q, 16),
        sched_anchor_q: read_le(src, at + ACC_SCHED_ANCHOR_Q, 16),
        sched_start_slot: read_le(src, at + ACC_SCHED_START_SLOT, 8) as u64,
        sched_horizon: read_le(src, at + ACC_SCHED_HORIZON, 8) as u64,
        sched_release_q: read_le(src, at + ACC_SCHED_RELEASE_Q, 16),
        pending_present: read_le(src, at + ACC_PENDING_PRESENT, 1) as u8,
        pending_remaining_q: read_le(src, at + ACC_PENDING_REMAINING_Q, 16),
        pending_horizon: read_le(src, at + ACC_PENDING_HORIZON, 8) as u64,
        pending_created_slot: read_le(src, at + ACC_PENDING_CREATED_SLOT, 8) as u64,
    }
}

/// A field of a narrow width fits the integer of that width.
proof fn lemma_width(b: Seq<u8>, off: int, n: int)
    requires
        0 <= off,
        n == 1 || n == 2 || n == 8,
        off + n <= b.len(),
    ensures
        n == 1 ==> field_at(b, off, n) <= u8::MAX,
        n == 2 ==> field_at(b, off, n) <= u16::MAX,
        n == 8 ==> field_at(b, off, n) <= u64::MAX,
        0 <= field_at(b, off, n),
{
    le_value_in_range(b.subrange(off, off + n));
    byte_ranges();
}

impl RiskEngine {
    /// Append the vault, the insurance fund and the parameters.
    fn append_funds_and_params(&self, out: &mut Vec<u8>)
        requires
            old(out)@.len() == 0,
        ensures
            final(out)@.len() == 232,
            funds_and_params_at(final(out)@, self@),
            extends(old(out)@, final(out)@),
    {
        proof {
            byte_ranges();
        }
        append_le(out, self.vault.v, 16);
        append_le(out, self.insurance_fund.balance.v, 16);
        append_le(out, self.params.maintenance_margin_bps as u128, 8);
        append_le(out, self.params.initial_margin_bps as u128, 8);
        append_le(out, self.params.trading_fee_bps as u128, 8);
        append_le(out, self.params.max_accounts as u128, 8);
        append_le(out, self.params.max_crank_staleness_slots as u128, 8);
        append_le(out, self.params.liquidation_fee_bps as u128, 8);
        append_le(out, self.params.liquidation_fee_cap.v, 16);
        append_le(out, self.params.min_liquidation_abs.v, 16);
        append_le(out, self.params.min_initial_deposit.v, 16);
        append_le(out, self.params.min_nonzero_mm_req, 16);
        append_le(out, self.params.min_nonzero_im_req, 16);
        append_le(out, self.params.insurance_floor.v, 16);
        append_le(out, self.params.h_min as u128, 8);
        append_le(out, self.params.h_max as u128, 8);
        append_le(out, self.params.resolve_price_deviation_bps as u128, 8);
        append_le(out, self.params.max_accrual_dt_slots as u128, 8);
        append_le(out, self.params.max_abs_funding_e9_per_slot as u128, 8);
        append_le(out, self.params.min_funding_lifetime_slots as u128, 8);
        append_le(out, self.params.max_active_positions_per_side as u128, 8);
    }

    /// Append the clock and the resolution.
    fn append_resolution(&self, out: &mut Vec<u8>)
        requires
            old(out)@.len() == 232,
        ensures
            final(out)@.len() == 360,
            resolution_at(final(out)@, self@),
            extends(old(out)@, final(out)@),
    {
        proof {
            byte_ranges();
        }
        append_zeros(out, 8);
        append_le(out, self.current_slot as u128, 8);
        append_le(out, market_mode_byte(self.market_mode) as u128, 1);
        append_zeros(out, 7);
        append_le(out, self.resolved_price as u128, 8);
        append_le(out, self.resolved_slot as u128, 8);
        append_le(out, self.resolved_payout_h_num, 16);
        append_le(out, self.resolved_payout_h_den, 16);
        append_le(out, self.resolved_payout_ready as u128, 1);
        append_zeros(out, 15);
        append_le(out, to_twos(self.resolved_k_long_terminal_delta), 16);
        append_le(out, to_twos(self.resolved_k_short_terminal_delta), 16);
        append_le(out, self.resolved_live_price as u128, 8);
    }

    /// Append the aggregates and the side coefficients.
    fn append_totals(&self, out: &mut Vec<u8>)
        requires
            old(out)@.len() == 360,
        ensures
            final(out)@.len() == 544,
            totals_at(final(out)@, self@),
            extends(old(out)@, final(out)@),
    {
        proof {
            byte_ranges();
        }
        append_le(out, self.last_crank_slot as u128, 8);
        append_le(out, self.c_tot.v, 16);
        append_le(out, self.pnl_pos_tot, 16);
        append_le(out, self.pnl_matured_pos_tot, 16);
        append_le(out, self.gc_cursor as u128, 2);
        append_zeros(out, 14);
        append_le(out, self.adl_mult_long, 16);
        append_le(out, self.adl_mult_short, 16);
        append_le(out, to_twos(self.adl_coeff_long), 16);
        append_le(out, to_twos(self.adl_coeff_short), 16);
        append_le(out, self.adl_epoch_long as u128, 8);
        append_le(out, self.adl_epoch_short as u128, 8);
        append_le(out, to_twos(self.adl_epoch_start_k_long), 16);
        append_le(out, to_twos(self.adl_epoch_start_k_short), 16);
    }

    /// Append the side states and the counters.
    fn append_sides(&self, out: &mut Vec<u8>)
        requires
            old(out)@.len() == 544,
        ensures
            final(out)@.len() == 672,
            sides_at(final(out)@, self@),
            extends(old(out)@, final(out)@),
    {
        proof {
            byte_ranges();
        }
        append_le(out, self.oi_eff_long_q, 16);
        append_le(out, self.oi_eff_short_q, 16);
        append_le(out, side_mode_byte(self.side_mode_long) as u128, 1);
        append_le(out, side_mode_byte(self.side_mode_short) as u128, 1);
        append_zeros(out, 6);
        append_le(out, self.stored_pos_count_long as u128, 8);
        append_le(out, self.stored_pos_count_short as u128, 8);
        append_le(out, self.stale_account_count_long as u128, 8);
        append_le(out, self.stale_account_count_short as u128, 8);
        append_zeros(out, 8);
        append_le(out, self.phantom_dust_bound_long_q, 16);
        append_le(out, self.phantom_dust_bound_short_q, 16);
        append_le(out, self.materialized_account_count as u128, 8);
        append_le(out, self.neg_pnl_account_count as u128, 8);
    }

    /// Append the price and funding state.
    fn append_funding(&self, out: &mut Vec<u8>)
        requires
            old(out)@.len() == 672,
        ensures
            final(out)@.len() == 768,
            funding_at(final(out)@, self@),
            extends(old(out)@, final(out)@),
    {
        proof {
            byte_ranges();
        }
        append_le(out, self.last_oracle_price as u128, 8);
        append_le(out, self.fund_px_last as u128, 8);
        append_le(out, self.last_market_slot as u128, 8);
        append_zeros(out, 8);
        append_le(out, to_twos(self.f_long_num), 16);
        append_le(out, to_twos(self.f_short_num), 16);
        append_le(out, to_twos(self.f_epoch_start_long_num), 16);
        append_le(out, to_twos(self.f_epoch_start_short_num), 16);
    }

    /// Append the slot tables.
    fn append_tables(&self, out: &mut Vec<u8>)
        requires
            old(out)@.len() == OFF_USED,
            self.used@.len() == BITMAP_WORDS,
            self.next_free@.len() == MAX_ACCOUNTS,
            self.prev_free@.len() == MAX_ACCOUNTS,
            self.accounts@.len() == MAX_ACCOUNTS,
        ensures
            final(out)@.len() == ENGINE_SIZE,
            tables_at(final(out)@, self@),
            extends(old(out)@, final(out)@),
    {
        proof {
            byte_ranges();
        }
        let ghost b0 = out@;
        let mut i: usize = 0;
        while i < BITMAP_WORDS
            invariant
                i <= BITMAP_WORDS,
                self.used@.len() == BITMAP_WORDS,
                out@.len() == OFF_USED + 8 * i,
                extends(b0, out@),
                forall|j: int| 0 <= j < i ==> field_at(out@, OFF_USED + 8 * j, 8) == #[trigger] self.used@[j],
                byte_range(8) == u64::MAX + 1,
            decreases BITMAP_WORDS - i,
        {
            let ghost was = out@;
            append_le(out, self.used[i] as u128, 8);
            proof {
                lemma_extends_trans(b0, was, out@);
            }
            i = i + 1;
        }
        append_le(out, self.num_used_accounts as u128, 2);
        append_le(out, self.free_head as u128, 2);
        let ghost b1 = out@;
        append_links(out, &self.next_free);
        let ghost b2 = out@;
        append_links(out, &self.prev_free);
        let ghost b3 = out@;
        append_zeros(out, 12);
        let ghost b4 = out@;
        let mut k: usize = 0;
        while k < MAX_ACCOUNTS
            invariant
                k <= MAX_ACCOUNTS,
                self.accounts@.len() == MAX_ACCOUNTS,
                out@.len() == OFF_ACCOUNTS + ACCOUNT_SIZE * k,
                extends(b4, out@),
                forall|j: int|
                0 <= j < k ==> account_at(out@, OFF_ACCOUNTS + ACCOUNT_SIZE * j, #[trigger] self.accounts@[j]),
            decreases MAX_ACCOUNTS - k,
        {
            let ghost was = out@;
            append_account(out, &self.accounts[k]);
            proof {
                lemma_extends_trans(b4, was, out@);
                assert forall|j: int| 0 <= j < k implies account_at(
                    out@,
                    OFF_ACCOUNTS + ACCOUNT_SIZE * j,
                    #[trigger] self.accounts@[j],
                ) by {
                    lemma_account_extends(was, out@, OFF_ACCOUNTS + ACCOUNT_SIZE * j, self.accounts@[j]);
                }
            }
            k = k + 1;
        }
        proof {
            lemma_extends_trans(b3, b4, out@);
            lemma_extends_trans(b2, b3, out@);
            lemma_extends_trans(b1, b2, out@);
            let s = self@;
            assert forall|i: int| 0 <= i < MAX_ACCOUNTS implies #[trigger] s.used[i] == bit_of(
                field_at(out@, OFF_USED + 8 * (i / 64), 8) as u64,
                i % 64,
            ) by {
                assert(field_at(b1, OFF_USED + 8 * (i / 64), 8) == self.used@[i / 64]);
            }
        }
    }

    /// The byte image of the engine.
    pub fn to_bytes(&self) -> (r: Vec<u8>)
        requires
            self.used@.len() == BITMAP_WORDS,
            self.next_free@.len() == MAX_ACCOUNTS,
            self.prev_free@.len() == MAX_ACCOUNTS,
            self.accounts@.len() == MAX_ACCOUNTS,
        ensures
            engine_at(r@, self@),
    {
        let mut out: Vec<u8> = Vec::new();
        self.append_funds_and_params(&mut out);
        let ghost b0 = out@;
        self.append_resolution(&mut out);
        let ghost b1 = out@;
        self.append_totals(&mut out);
        let ghost b2 = out@;
        self.append_sides(&mut out);
        let ghost b3 = out@;
        self.append_funding(&mut out);
        let ghost b4 = out@;
        self.append_tables(&mut out);
        proof {
            lemma_extends_trans(b3, b4, out@);
            lemma_extends_trans(b2, b3, out@);
            lemma_extends_trans(b1, b2, out@);
            lemma_extends_trans(b0, b1, out@);
        }
        out
    }

    /// Whether the operations can work on this engine.
    pub fn is_sound(&self) -> (r: bool)
        ensures
            r == self.wf(),
    {
        if self.used.len() != BITMAP_WORDS || self.next_free.len() != MAX_ACCOUNTS || self.prev_free.len() != MAX_ACCOUNTS
            || self.accounts.len() != MAX_ACCOUNTS {
            return false;
        }
        if !RiskEngine::validate_params(&self.params) || self.adl_mult_long > ADL_ONE || self.adl_mult_short > ADL_ONE
            || self.resolved_payout_h_num > self.resolved_payout_h_den || !is_link(self.free_head) {
            return false;
        }
        let mut i: usize = 0;
        while i < MAX_ACCOUNTS
            invariant
                i <= MAX_ACCOUNTS,
                self.next_free@.len() == MAX_ACCOUNTS,
                self.prev_free@.len() == MAX_ACCOUNTS,
                self.accounts@.len() == MAX_ACCOUNTS,
                forall|j: int| 0 <= j < i ==> link_ok(#[trigger] self.next_free@[j]),
                forall|j: int| 0 <= j < i ==> link_ok(#[trigger] self.prev_free@[j]),
                forall|j: int| 0 <= j < i ==> basis_ok(#[trigger] self.accounts@[j]),
            decreases MAX_ACCOUNTS - i,
        {
            if !is_link(self.next_free[i]) || !is_link(self.prev_free[i]) {
                return false;
            }
            let basis: i128 = self.accounts[i].position_basis_q;
            if abs_i128(basis) > MAX_POSITION_ABS_Q {
                return false;
            }
            i = i + 1;
        }
        true
    }

    /// Read an engine from its image. There is none where the bytes are no image of
    /// a sound engine.
    pub fn from_bytes(src: &[u8]) -> (r: Option<RiskEngine>)
        ensures
            match r {
                Some(e) => e.wf() && engine_at(src@, e@) && is_engine(src@) && engine_of(src@) == e@,
                None => !is_engine(src@),
            },
    {
        if src.len() != ENGINE_SIZE {
            return None;
        }

        let market_mode = match market_mode_of(read_le(src, OFF_MARKET_MODE, 1)) {
            Some(m) => m,
            None => {
                return None;
            },
        };
        let side_mode_long = match side_mode_of(read_le(src, OFF_SIDE_MODE_LONG, 1)) {
            Some(m) => m,
            None => {
                return None;
            },
        };
        let side_mode_short = match side_mode_of(read_le(src, OFF_SIDE_MODE_SHORT, 1)) {
            Some(m) => m,
            None => {
                return None;
            },
        };
        let params = read_params(src);
        proof {
            lemma_width(src@, OFF_CURRENT_SLOT as int, 8);
            lemma_width(src@, OFF_RESOLVED_PRICE as int, 8);
            lemma_width(src@, OFF_RESOLVED_SLOT as int, 8);
            lemma_width(src@, OFF_RESOLVED_PAYOUT_READY as int, 1);
            lemma_width(src@, OFF_RESOLVED_LIVE_PRICE as int, 8);
            lemma_width(src@, OFF_LAST_CRANK_SLOT as int, 8);
            lemma_width(src@, OFF_GC_CURSOR as int, 2);
            lemma_width(src@, OFF_ADL_EPOCH_LONG as int, 8);
            lemma_width(src@, OFF_ADL_EPOCH_SHORT as int, 8);
            lemma_width(src@, OFF_STORED_POS_COUNT_LONG as int, 8);
            lemma_width(src@, OFF_STORED_POS_COUNT_SHORT as int, 8);
            lemma_width(src@, OFF_STALE_ACCOUNT_COUNT_LONG as int, 8);
            lemma_width(src@, OFF_STALE_ACCOUNT_COUNT_SHORT as int, 8);
            lemma_width(src@, OFF_MATERIALIZED_ACCOUNT_COUNT as int, 8);
            lemma_width(src@, OFF_NEG_PNL_ACCOUNT_COUNT as int, 8);
            lemma_width(src@, OFF_LAST_ORACLE_PRICE as int, 8);
            lemma_width(src@, OFF_FUND_PX_LAST as int, 8);
            lemma_width(src@, OFF_LAST_MARKET_SLOT as int, 8);
            lemma_width(src@, OFF_NUM_USED_ACCOUNTS as int, 2);
            lemma_width(src@, OFF_FREE_HEAD as int, 2);
        }
        let e = RiskEngine {
            vault: U128 { v: read_le(src, OFF_VAULT, 16) },
            insurance_fund: InsuranceFund { balance: U128 { v: read_le(src, OFF_INSURANCE_FUND, 16) } },
            params,
            current_slot: read_le(src, OFF_CURRENT_SLOT, 8) as u64,
            market_mode,
            resolved_price: read_le(src, OFF_RESOLVED_PRICE, 8) as u64,
            resolved_slot: read_le(src, OFF_RESOLVED_SLOT, 8) as u64,
            resolved_payout_h_num: read_le(src, OFF_RESOLVED_PAYOUT_H_NUM, 16),
            resolved_payout_h_den: read_le(src, OFF_RESOLVED_PAYOUT_H_DEN, 16),
            resolved_payout_ready: read_le(src, OFF_RESOLVED_PAYOUT_READY, 1) as u8,
            resolved_k_long_terminal_delta: from_twos(read_le(src, OFF_RESOLVED_K_LONG_TERMINAL_DELTA, 16)),
            resolved_k_short_terminal_delta: from_twos(read_le(src, OFF_RESOLVED_K_SHORT_TERMINAL_DELTA, 16)),
            resolved_live_price: read_le(src, OFF_RESOLVED_LIVE_PRICE, 8) as u64,
            last_crank_slot: read_le(src, OFF_LAST_CRANK_SLOT, 8) as u64,
            c_tot: U128 { v: read_le(src, OFF_C_TOT, 16) },
            pnl_pos_tot: read_le(src, OFF_PNL_POS_TOT, 16),
            pnl_matured_pos_tot: read_le(src, OFF_PNL_MATURED_POS_TOT, 16),
            gc_cursor: read_le(src, OFF_GC_CURSOR, 2) as u16,
            adl_mult_long: read_le(src, OFF_ADL_MULT_LONG, 16),
            adl_mult_short: read_le(src, OFF_ADL_MULT_SHORT, 16),
            adl_coeff_long: from_twos(read_le(src, OFF_ADL_COEFF_LONG, 16)),
            adl_coeff_short: from_twos(read_le(src, OFF_ADL_COEFF_SHORT, 16)),
            adl_epoch_long: read_le(src, OFF_ADL_EPOCH_LONG, 8) as u64,
            adl_epoch_short: read_le(src, OFF_ADL_EPOCH_SHORT, 8) as u64,
            adl_epoch_start_k_long: from_twos(read_le(src, OFF_ADL_EPOCH_START_K_LONG, 16)),
            adl_epoch_start_k_short: from_twos(read_le(src, OFF_ADL_EPOCH_START_K_SHORT, 16)),
            oi_eff_long_q: read_le(src, OFF_OI_EFF_LONG_Q, 16),
            oi_eff_short_q: read_le(src, OFF_OI_EFF_SHORT_Q, 16),
            side_mode_long,
            side_mode_short,
            stored_pos_count_long: read_le(src, OFF_STORED_POS_COUNT_LONG, 8) as u64,
            stored_pos_count_short: read_le(src, OFF_STORED_POS_COUNT_SHORT, 8) as u64,
            stale_account_count_long: read_le(src, OFF_STALE_ACCOUNT_COUNT_LONG, 8) as u64,
            stale_account_count_short: read_le(src, OFF_STALE_ACCOUNT_COUNT_SHORT, 8) as u64,
            phantom_dust_bound_long_q: read_le(src, OFF_PHANTOM_DUST_BOUND_LONG_Q, 16),
            phantom_dust_bound_short_q: read_le(src, OFF_PHANTOM_DUST_BOUND_SHORT_Q, 16),
            materialized_account_count: read_le(src, OFF_MATERIALIZED_ACCOUNT_COUNT, 8) as u64,
            neg_pnl_account_count: read_le(src, OFF_NEG_PNL_ACCOUNT_COUNT, 8) as u64,
            last_oracle_price: read_le(src, OFF_LAST_ORACLE_PRICE, 8) as u64,
            fund_px_last: read_le(src, OFF_FUND_PX_LAST, 8) as u64,
            last_market_slot: read_le(src, OFF_LAST_MARKET_SLOT, 8) as u64,
            f_long_num: from_twos(read_le(src, OFF_F_LONG_NUM, 16)),
            f_short_num: from_twos(read_le(src, OFF_F_SHORT_NUM, 16)),
            f_epoch_start_long_num: from_twos(read_le(src, OFF_F_EPOCH_START_LONG_NUM, 16)),
            f_epoch_start_short_num: from_twos(read_le(src, OFF_F_EPOCH_START_SHORT_NUM, 16)),
            used: read_bitmap(src),
            num_used_accounts: read_le(src, OFF_NUM_USED_ACCOUNTS, 2) as u16,
            free_head: read_le(src, OFF_FREE_HEAD, 2) as u16,
            next_free: read_links(src, OFF_NEXT_FREE),
            prev_free: read_links(src, OFF_PREV_FREE),
            accounts: read_accounts(src),
        };
        proof {
            let s = e@;
            assert forall|i: int| 0 <= i < MAX_ACCOUNTS implies #[trigger] s.used[i] == bit_of(
                field_at(src@, OFF_USED + 8 * (i / 64), 8) as u64,
                i % 64,
            ) by {
                assert(field_at(src@, OFF_USED + 8 * (i / 64), 8) == e.used@[i / 64]);
            }
            assert(engine_at(src@, s));
            assert forall|t: EngineState| t.wf() && #[trigger] engine_at(src@, t) implies t == s by {
                engine_image_is_unique(src@, t, s);
            }
        }
        if e.is_sound() {
            proof {
                engine_of_image(src@, e@);
            }
            Some(e)
        } else {
            None
        }
    }
}

proof fn lemma_extends_trans(a: Seq<u8>, b: Seq<u8>, c: Seq<u8>)
    requires
        extends(a, b),
        extends(b, c),
    ensures
        extends(a, c),
{
}

proof fn lemma_account_extends(a: Seq<u8>, b: Seq<u8>, at: int, x: Account)
    requires
        extends(a, b),
        0 <= at,
        at + ACCOUNT_SIZE <= a.len(),
        account_at(a, at, x),
    ensures
        account_at(b, at, x),
{
    reveal(account_at);
}

/// Append a table of links.
fn append_links(out: &mut Vec<u8>, links: &Vec<u16>)
    requires
        old(out)@.len() + 2 * MAX_ACCOUNTS <= usize::MAX,
        links@.len() == MAX_ACCOUNTS,
    ensures
        final(out)@.len() == old(out)@.len() + 2 * MAX_ACCOUNTS,
        forall|j: int| 0 <= j < MAX_ACCOUNTS ==> field_at(final(out)@, old(out)@.len() + 2 * j, 2) == #[trigger] links@[j],
        extends(old(out)@, final(out)@),
{
    proof {
        byte_ranges();
    }
    let ghost b0 = out@;
    let mut i: usize = 0;
    while i < MAX_ACCOUNTS
        invariant
            i <= MAX_ACCOUNTS,
            links@.len() == MAX_ACCOUNTS,
            b0.len() + 2 * MAX_ACCOUNTS <= usize::MAX,
            out@.len() == b0.len() + 2 * i,
            extends(b0, out@),
            forall|j: int| 0 <= j < i ==> field_at(out@, b0.len() + 2 * j, 2) == #[trigger] links@[j],
            byte_range(2) == u16::MAX + 1,
        decreases MAX_ACCOUNTS - i,
    {
        let ghost was = out@;
        append_le(out, links[i] as u128, 2);
        proof {
            lemma_extends_trans(b0, was, out@);
        }
        i = i + 1;
    }
}

fn read_bitmap(src: &[u8]) -> (r: Vec<u64>)
    requires
        src@.len() == ENGINE_SIZE,
    ensures
        r@.len() == BITMAP_WORDS,
        forall|j: int| 0 <= j < BITMAP_WORDS ==> field_at(src@, OFF_USED + 8 * j, 8) == #[trigger] r@[j],
{
    let mut r: Vec<u64> = Vec::new();
    let mut i: usize = 0;
    while i < BITMAP_WORDS
        invariant
            i <= BITMAP_WORDS,
            src@.len() == ENGINE_SIZE,
            r@.len() == i,
            forall|j: int| 0 <= j < i ==> field_at(src@, OFF_USED + 8 * j, 8) == #[trigger] r@[j],
        decreases BITMAP_WORDS - i,
    {
        proof {
            lemma_width(src@, OFF_USED + 8 * i, 8);
        }
        r.push(read_le(src, OFF_USED + 8 * i, 8) as u64);
        i = i + 1;
    }
    r
}

fn read_links(src: &[u8], at: usize) -> (r: Vec<u16>)
    requires
        at + 2 * MAX_ACCOUNTS <= src@.len(),
    ensures
        r@.len() == MAX_ACCOUNTS,
        forall|j: int| 0 <= j < MAX_ACCOUNTS ==> field_at(src@, at + 2 * j, 2) == #[trigger] r@[j],
{
    let len: usize = src.len();
    let mut r: Vec<u16> = Vec::new();
    let mut i: usize = 0;
    while i < MAX_ACCOUNTS
        invariant
            i <= MAX_ACCOUNTS,
            src@.len() == len,
            at + 2 * MAX_ACCOUNTS <= src@.len(),
            r@.len() == i,
            forall|j: int| 0 <= j < i ==> field_at(src@, at + 2 * j, 2) == #[trigger] r@[j],
        decreases MAX_ACCOUNTS - i,
    {
        proof {
            lemma_width(src@, at + 2 * i, 2);
        }
        r.push(read_le(src, at + 2 * i, 2) as u16);
        i = i + 1;
    }
    r
}

fn read_accounts(src: &[u8]) -> (r: Vec<Account>)
    requires
        src@.len() == ENGINE_SIZE,
    ensures
        r@.len() == MAX_ACCOUNTS,
        forall|j: int| 0 <= j < MAX_ACCOUNTS ==> account_at(src@, OFF_ACCOUNTS + ACCOUNT_SIZE * j, #[trigger] r@[j]),
{
    let mut r: Vec<Account> = Vec::new();
    let mut i: usize = 0;
    while i < MAX_ACCOUNTS
        invariant
            i <= MAX_ACCOUNTS,
            src@.len() == ENGINE_SIZE,
            r@.len() == i,
            forall|j: int| 0 <= j < i ==> account_at(src@, OFF_ACCOUNTS + ACCOUNT_SIZE * j, #[trigger] r@[j]),
        decreases MAX_ACCOUNTS - i,
    {
        r.push(read_account(src, OFF_ACCOUNTS + ACCOUNT_SIZE * i));
        i = i + 1;
    }
    r
}

fn is_link(l: u16) -> (r: bool)
    ensures
        r == link_ok(l),
{
    (l as usize) < MAX_ACCOUNTS || l == NIL_SLOT
}

fn read_params(src: &[u8]) -> (p: RiskParams)
    requires
        src@.len() == ENGINE_SIZE,
    ensures

        field_at(src@, OFF_PARAMS_MAINTENANCE_MARGIN_BPS as int, 8) == p.maintenance_margin_bps,
        field_at(src@, OFF_PARAMS_INITIAL_MARGIN_BPS as int, 8) == p.initial_margin_bps,
        field_at(src@, OFF_PARAMS_TRADING_FEE_BPS as int, 8) == p.trading_fee_bps,
        field_at(src@, OFF_PARAMS_MAX_ACCOUNTS as int, 8) == p.max_accounts,
        field_at(src@, OFF_PARAMS_MAX_CRANK_STALENESS_SLOTS as int, 8) == p.max_crank_staleness_slots,
        field_at(src@, OFF_PARAMS_LIQUIDATION_FEE_BPS as int, 8) == p.liquidation_fee_bps,
        field_at(src@, OFF_PARAMS_LIQUIDATION_FEE_CAP as int, 16) == p.liquidation_fee_cap.v,
        field_at(src@, OFF_PARAMS_MIN_LIQUIDATION_ABS as int, 16) == p.min_liquidation_abs.v,
        field_at(src@, OFF_PARAMS_MIN_INITIAL_DEPOSIT as int, 16) == p.min_initial_deposit.v,
        field_at(src@, OFF_PARAMS_MIN_NONZERO_MM_REQ as int, 16) == p.min_nonzero_mm_req,
        field_at(src@, OFF_PARAMS_MIN_NONZERO_IM_REQ as int, 16) == p.min_nonzero_im_req,
        field_at(src@, OFF_PARAMS_INSURANCE_FLOOR as int, 16) == p.insurance_floor.v,
        field_at(src@, OFF_PARAMS_H_MIN as int, 8) == p.h_min,
        field_at(src@, OFF_PARAMS_H_MAX as int, 8) == p.h_max,
        field_at(src@, OFF_PARAMS_RESOLVE_PRICE_DEVIATION_BPS as int, 8) == p.resolve_price_deviation_bps,
        field_at(src@, OFF_PARAMS_MAX_ACCRUAL_DT_SLOTS as int, 8) == p.max_accrual_dt_slots,
        field_at(src@, OFF_PARAMS_MAX_ABS_FUNDING_E9_PER_SLOT as int, 8) == p.max_abs_funding_e9_per_slot,
        field_at(src@, OFF_PARAMS_MIN_FUNDING_LIFETIME_SLOTS as int, 8) == p.min_funding_lifetime_slots,
        field_at(src@, OFF_PARAMS_MAX_ACTIVE_POSITIONS_PER_SIDE as int, 8) == p.max_active_positions_per_side,
{
    proof {
        lemma_width(src@, OFF_PARAMS_MAINTENANCE_MARGIN_BPS as int, 8);
        lemma_width(src@, OFF_PARAMS_INITIAL_MARGIN_BPS as int, 8);
        lemma_width(src@, OFF_PARAMS_TRADING_FEE_BPS as int, 8);
        lemma_width(src@, OFF_PARAMS_MAX_ACCOUNTS as int, 8);
        lemma_width(src@, OFF_PARAMS_MAX_CRANK_STALENESS_SLOTS as int, 8);
        lemma_width(src@, OFF_PARAMS_LIQUIDATION_FEE_BPS as int, 8);
        lemma_width(src@, OFF_PARAMS_H_MIN as int, 8);
        lemma_width(src@, OFF_PARAMS_H_MAX as int, 8);
        lemma_width(src@, OFF_PARAMS_RESOLVE_PRICE_DEVIATION_BPS as int, 8);
        lemma_width(src@, OFF_PARAMS_MAX_ACCRUAL_DT_SLOTS as int, 8);
        lemma_width(src@, OFF_PARAMS_MAX_ABS_FUNDING_E9_PER_SLOT as int, 8);
        lemma_width(src@, OFF_PARAMS_MIN_FUNDING_LIFETIME_SLOTS as int, 8);
        lemma_width(src@, OFF_PARAMS_MAX_ACTIVE_POSITIONS_PER_SIDE as int, 8);
    }
    RiskParams {
        maintenance_margin_bps: read_le(src, OFF_PARAMS_MAINTENANCE_MARGIN_BPS, 8) as u64,
        initial_margin_bps: read_le(src, OFF_PARAMS_INITIAL_MARGIN_BPS, 8) as u64,
        trading_fee_bps: read_le(src, OFF_PARAMS_TRADING_FEE_BPS, 8) as u64,
        max_accounts: read_le(src, OFF_PARAMS_MAX_ACCOUNTS, 8) as u64,
        max_crank_staleness_slots: read_le(src, OFF_PARAMS_MAX_CRANK_STALENESS_SLOTS, 8) as u64,
        liquidation_fee_bps: read_le(src, OFF_PARAMS_LIQUIDATION_FEE_BPS, 8) as u64,
        liquidation_fee_cap: U128 { v: read_le(src, OFF_PARAMS_LIQUIDATION_FEE_CAP, 16) },
        min_liquidation_abs: U128 { v: read_le(src, OFF_PARAMS_MIN_LIQUIDATION_ABS, 16) },
        min_initial_deposit: U128 { v: read_le(src, OFF_PARAMS_MIN_INITIAL_DEPOSIT, 16) },
        min_nonzero_mm_req: read_le(src, OFF_PARAMS_MIN_NONZERO_MM_REQ, 16),
        min_nonzero_im_req: read_le(src, OFF_PARAMS_MIN_NONZERO_IM_REQ, 16),
        insurance_floor: U128 { v: read_le(src, OFF_PARAMS_INSURANCE_FLOOR, 16) },
        h_min: read_le(src, OFF_PARAMS_H_MIN, 8) as u64,
        h_max: read_le(src, OFF_PARAMS_H_MAX, 8) as u64,
        resolve_price_deviation_bps: read_le(src, OFF_PARAMS_RESOLVE_PRICE_DEVIATION_BPS, 8) as u64,
        max_accrual_dt_slots: read_le(src, OFF_PARAMS_MAX_ACCRUAL_DT_SLOTS, 8) as u64,
        max_abs_funding_e9_per_slot: read_le(src, OFF_PARAMS_MAX_ABS_FUNDING_E9_PER_SLOT, 8) as u64,
        min_funding_lifetime_slots: read_le(src, OFF_PARAMS_MIN_FUNDING_LIFETIME_SLOTS, 8) as u64,
        max_active_positions_per_side: read_le(src, OFF_PARAMS_MAX_ACTIVE_POSITIONS_PER_SIDE, 8) as u64,
    }
}

} // verus!
