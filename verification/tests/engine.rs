use percolator::constants::{ADL_ONE, MAX_VAULT_TVL};
use percolator::int128::{I128, U128};
use percolator::types::{
    LiquidationPolicy, MarketMode, ResolveMode, ResolvedCloseResult, RiskEngine, RiskError, RiskParams, Side,
    SideMode,
};

const PX: u64 = 1_000_000;
const H_MIN: u64 = 10;
const H_MAX: u64 = 1_000;

fn params() -> RiskParams {
    RiskParams {
        maintenance_margin_bps: 500,
        initial_margin_bps: 1_000,
        trading_fee_bps: 0,
        max_accounts: 64,
        max_crank_staleness_slots: 1_000,
        liquidation_fee_bps: 100,
        liquidation_fee_cap: U128::new(1_000_000_000),
        min_liquidation_abs: U128::new(100),
        min_initial_deposit: U128::new(1_000),
        min_nonzero_mm_req: 100,
        min_nonzero_im_req: 200,
        insurance_floor: U128::new(0),
        h_min: H_MIN,
        h_max: H_MAX,
        resolve_price_deviation_bps: 2_000,
        max_accrual_dt_slots: 1_000_000,
        max_abs_funding_e9_per_slot: 100,
        min_funding_lifetime_slots: 1_000_000,
        max_active_positions_per_side: 64,
    }
}

/// A market with two accounts of a million each.
fn market() -> RiskEngine {
    let mut e = RiskEngine::new_with_market(params(), 1, PX);
    e.deposit_not_atomic(0, 1_000_000, PX, 1).unwrap();
    e.deposit_not_atomic(1, 1_000_000, PX, 1).unwrap();
    e
}

fn trade(e: &mut RiskEngine, a: u16, b: u16, px: u64, slot: u64, size: i128) -> Result<(), RiskError> {
    e.execute_trade_not_atomic(a, b, px, slot, size, px, 0, H_MIN, H_MAX)
}

fn settle(e: &mut RiskEngine, i: u16, px: u64, slot: u64) -> Result<(), RiskError> {
    e.settle_account_not_atomic(i, px, slot, 0, H_MIN, H_MAX)
}

fn withdraw(e: &mut RiskEngine, i: u16, amount: u128, px: u64, slot: u64) -> Result<(), RiskError> {
    e.withdraw_not_atomic(i, amount, px, slot, 0, H_MIN, H_MAX)
}

/// The totals are the sums over the accounts.
fn assert_books(e: &RiskEngine) {
    let c: u128 = e.accounts.iter().map(|a| a.capital.get()).sum();
    let p: u128 = e.accounts.iter().map(|a| if a.pnl > 0 { a.pnl as u128 } else { 0 }).sum();
    let r: u128 = e.accounts.iter().map(|a| a.reserved_pnl).sum();
    assert_eq!(e.c_tot.get(), c);
    assert_eq!(e.pnl_pos_tot, p);
    if e.market_mode == MarketMode::Live {
        assert_eq!(e.pnl_matured_pos_tot, p - r);
    }
    assert_eq!(e.neg_pnl_account_count, e.accounts.iter().filter(|a| a.pnl < 0).count() as u64);
    assert_eq!(
        e.stored_pos_count_long,
        e.accounts.iter().filter(|a| a.position_basis_q > 0).count() as u64
    );
    assert_eq!(
        e.stored_pos_count_short,
        e.accounts.iter().filter(|a| a.position_basis_q < 0).count() as u64
    );
    assert!(e.check_conservation());
    assert!(e.is_sound());
}

#[test]
fn new_market_is_empty() {
    let e = RiskEngine::new_with_market(params(), 7, 42);
    assert_eq!(e.current_slot, 7);
    assert_eq!(e.last_oracle_price, 42);
    assert_eq!(e.adl_mult_long, ADL_ONE);
    assert_eq!(e.count_used(), 0);
    assert!(!e.is_used(0));
    assert!(!e.is_used(4096));
    assert_books(&e);
    assert_eq!(RiskEngine::new(params()), RiskEngine::new_with_market(params(), 0, 1));
    assert!(RiskEngine::can_initialize(&params(), 1));
    assert!(!RiskEngine::can_initialize(&params(), 0));
}

#[test]
fn reinitialization_forgets_everything() {
    let mut e = market();
    trade(&mut e, 0, 1, PX, 1, 1_000_000).unwrap();
    e.init_in_place(params(), 7, 42);
    assert_eq!(e, RiskEngine::new_with_market(params(), 7, 42));
}

#[test]
fn deposits_add_up() {
    let mut e = market();
    e.deposit_not_atomic(0, 5, PX, 2).unwrap();
    assert_eq!(e.accounts[0].capital.get(), 1_000_005);
    assert_eq!(e.vault.get(), 2_000_005);
    assert_eq!(e.current_slot, 2);
    assert_books(&e);
}

#[test]
fn deposits_are_refused() {
    let mut e = market();
    assert_eq!(e.deposit_not_atomic(2, 999, PX, 1), Err(RiskError::InsufficientBalance));
    assert_eq!(e.deposit_not_atomic(0, 1, PX, 0), Err(RiskError::Overflow));
    assert_eq!(e.deposit_not_atomic(0, MAX_VAULT_TVL, PX, 1), Err(RiskError::Overflow));
    assert_eq!(e.deposit_not_atomic(4096, 1_000, PX, 1), Err(RiskError::AccountNotFound));
}

#[test]
fn owners_are_final() {
    let mut e = market();
    assert_eq!(e.set_owner(0, [0; 32]), Err(RiskError::Unauthorized));
    assert_eq!(e.set_owner(5, [1; 32]), Err(RiskError::Unauthorized));
    assert_eq!(e.set_owner(0, [1; 32]), Ok(()));
    assert_eq!(e.set_owner(0, [2; 32]), Err(RiskError::Unauthorized));
    assert_eq!(e.accounts[0].owner, [1; 32]);
    assert_eq!(e.find_owner(&[1; 32]), Some(0));
    assert_eq!(e.find_owner(&[2; 32]), None);
}

#[test]
fn withdrawals_take_capital() {
    let mut e = market();
    withdraw(&mut e, 0, 400_000, PX, 3).unwrap();
    assert_eq!(e.accounts[0].capital.get(), 600_000);
    assert_eq!(e.vault.get(), 1_600_000);
    assert_eq!(withdraw(&mut e, 0, 600_001, PX, 3), Err(RiskError::InsufficientBalance));
    assert_eq!(withdraw(&mut e, 9, 1, PX, 3), Err(RiskError::AccountNotFound));
    assert_eq!(withdraw(&mut e, 0, 1, 0, 3), Err(RiskError::Overflow));
    assert_eq!(
        e.withdraw_not_atomic(0, 1, PX, 3, 0, H_MIN, H_MAX + 1),
        Err(RiskError::Overflow)
    );
    assert_books(&e);
}

#[test]
fn dust_may_not_be_left_behind() {
    let mut e = market();
    assert_eq!(withdraw(&mut e, 0, 999_999, PX, 3), Err(RiskError::InsufficientBalance));
    assert_eq!(withdraw(&mut e, 0, 1_000_000, PX, 3), Ok(()));
}

#[test]
fn a_trade_is_matched() {
    let mut e = market();
    trade(&mut e, 0, 1, PX, 2, 1_000_000).unwrap();
    assert_eq!(e.effective_pos_q(0), 1_000_000);
    assert_eq!(e.effective_pos_q(1), -1_000_000);
    assert_eq!(e.oi_eff_long_q, 1_000_000);
    assert_eq!(e.oi_eff_short_q, 1_000_000);
    assert_eq!(e.notional(0, 2 * PX), 2_000_000);
    assert_books(&e);
}

#[test]
fn trades_are_refused() {
    let mut e = market();
    assert_eq!(trade(&mut e, 0, 0, PX, 2, 1), Err(RiskError::Overflow));
    assert_eq!(trade(&mut e, 0, 1, PX, 2, 0), Err(RiskError::Overflow));
    assert_eq!(trade(&mut e, 0, 7, PX, 2, 1), Err(RiskError::AccountNotFound));
    assert_eq!(trade(&mut e, 0, 1, PX, 2, 10_000_010), Err(RiskError::Undercollateralized));
    e.side_mode_long = SideMode::DrainOnly;
    assert_eq!(trade(&mut e, 0, 1, PX, 2, 1_000), Err(RiskError::SideBlocked));
}

#[test]
fn trading_fees_go_to_insurance() {
    let mut p = params();
    p.trading_fee_bps = 100;
    let mut e = RiskEngine::new_with_market(p, 1, PX);
    e.deposit_not_atomic(0, 1_000_000, PX, 1).unwrap();
    e.deposit_not_atomic(1, 1_000_000, PX, 1).unwrap();
    trade(&mut e, 0, 1, PX, 2, 1_000_000).unwrap();
    assert_eq!(e.accounts[0].capital.get(), 990_000);
    assert_eq!(e.accounts[1].capital.get(), 990_000);
    assert_eq!(e.insurance_fund.balance.get(), 20_000);
    assert_eq!(e.vault.get(), 2_000_000);
    assert_books(&e);
}

#[test]
fn price_moves_from_loser_to_winner() {
    let mut e = market();
    trade(&mut e, 0, 1, PX, 2, 1_000_000).unwrap();
    let up = PX + PX / 10;
    // The loser pays out of capital.
    settle(&mut e, 1, up, 3).unwrap();
    assert_eq!(e.accounts[1].pnl, 0);
    assert_eq!(e.accounts[1].capital.get(), 900_000);
    assert_books(&e);
    // What the loser paid covers the winner, whose profit takes the short horizon.
    settle(&mut e, 0, up, 4).unwrap();
    assert_eq!(e.accounts[0].pnl, 100_000);
    assert_eq!(e.accounts[0].reserved_pnl, 100_000);
    assert_eq!(e.accounts[0].sched_horizon, H_MIN);
    assert_eq!(e.released_pos(0), 0);
    assert_books(&e);
}

#[test]
fn uncovered_profit_waits_longer() {
    let mut e = market();
    trade(&mut e, 0, 1, PX, 2, 1_000_000).unwrap();
    let up = PX + PX / 10;
    settle(&mut e, 0, up, 3).unwrap();
    assert_eq!(e.accounts[0].pnl, 100_000);
    assert_eq!(e.accounts[0].reserved_pnl, 100_000);
    assert_eq!(e.accounts[0].sched_horizon, H_MAX);
    assert_books(&e);
}

#[test]
fn reserves_mature_linearly() {
    let mut e = market();
    trade(&mut e, 0, 1, PX, 2, 1_000_000).unwrap();
    let up = PX + PX / 10;
    // Uncovered, so that nothing is admitted early.
    settle(&mut e, 0, up, 10).unwrap();
    settle(&mut e, 0, up, 10 + H_MAX / 4).unwrap();
    assert_eq!(e.accounts[0].reserved_pnl, 75_000);
    assert_eq!(e.released_pos(0), 25_000);
    settle(&mut e, 0, up, 10 + H_MAX).unwrap();
    assert_eq!(e.accounts[0].reserved_pnl, 0);
    assert_eq!(e.released_pos(0), 100_000);
    assert_books(&e);
}

#[test]
fn haircut_shares_what_is_there() {
    let mut e = market();
    assert_eq!(e.haircut_ratio(), (1, 1));
    e.accounts[0].pnl = 400;
    e.pnl_pos_tot = 400;
    e.pnl_matured_pos_tot = 400;
    e.vault = U128::new(2_000_100);
    assert_eq!(e.haircut_ratio(), (100, 400));
    assert_eq!(e.effective_matured_pnl(0), 100);
    e.vault = U128::new(2_001_000);
    assert_eq!(e.haircut_ratio(), (400, 400));
}

#[test]
fn matured_profit_converts_at_the_haircut() {
    let mut e = market();
    e.accounts[0].pnl = 400;
    e.pnl_pos_tot = 400;
    e.pnl_matured_pos_tot = 400;
    e.vault = U128::new(2_000_100);
    e.convert_released_pnl_not_atomic(0, 200, PX, 2, 0, H_MIN, H_MAX).unwrap();
    assert_eq!(e.accounts[0].pnl, 200);
    assert_eq!(e.accounts[0].capital.get(), 1_000_050);
    assert_books(&e);
    assert_eq!(
        e.convert_released_pnl_not_atomic(0, 201, PX, 2, 0, H_MIN, H_MAX),
        Err(RiskError::Overflow)
    );
}

#[test]
fn equities() {
    let mut e = market();
    e.accounts[0].pnl = -300;
    e.accounts[0].fee_credits = I128::new(-200);
    assert_eq!(e.account_equity_maint_raw(&e.accounts[0]), 999_500);
    assert_eq!(e.account_equity_net(&e.accounts[0], PX), 999_500);
    assert_eq!(e.account_equity_init_raw(&e.accounts[0], 0), 999_500);
    e.accounts[0].fee_credits = I128::new(-2_000_000);
    assert_eq!(e.account_equity_net(&e.accounts[0], PX), 0);
}

#[test]
fn margins() {
    let mut e = market();
    trade(&mut e, 0, 1, PX, 2, 9_000_000).unwrap();
    let a = e.accounts[0];
    assert!(e.is_above_maintenance_margin(&a, 0, PX));
    assert!(e.is_above_initial_margin(&a, 0, PX));
    // At 2.1 the initial margin is more than the capital.
    assert!(!e.is_above_initial_margin(&a, 0, 2 * PX));
    assert!(e.is_above_maintenance_margin(&a, 0, 2 * PX));
    assert!(!e.is_above_maintenance_margin(&a, 0, 3 * PX));
}

#[test]
fn funding_moves_from_long_to_short() {
    let mut e = market();
    trade(&mut e, 0, 1, PX, 2, 1_000_000).unwrap();
    // 1_000 slots at 100e-9: a ten-thousandth of the notional.
    e.settle_account_not_atomic(0, PX, 1_002, 100, H_MIN, H_MAX).unwrap();
    assert_eq!(e.accounts[0].capital.get(), 999_900);
    e.settle_account_not_atomic(1, PX, 1_002, 0, H_MIN, H_MAX).unwrap();
    assert_eq!(e.accounts[1].pnl, 100);
    assert_books(&e);
    assert_eq!(e.accrue_market_to(1_003, PX, 101), Err(RiskError::Overflow));
}

#[test]
fn accrual_bounds() {
    let mut e = market();
    assert_eq!(e.accrue_market_to(0, PX, 0), Err(RiskError::Overflow));
    assert_eq!(e.accrue_market_to(2, 0, 0), Err(RiskError::Overflow));
    assert_eq!(e.accrue_market_to(1_000_002, PX, 0), Err(RiskError::Overflow));
    assert_eq!(e.accrue_market_to(1_000_001, PX, 0), Ok(()));
    assert_eq!(e.last_market_slot, 1_000_001);
}

#[test]
fn healthy_accounts_are_not_liquidated() {
    let mut e = market();
    trade(&mut e, 0, 1, PX, 2, 1_000_000).unwrap();
    assert_eq!(
        e.liquidate_at_oracle_not_atomic(0, 3, PX, LiquidationPolicy::FullClose, 0, H_MIN, H_MAX),
        Ok(false)
    );
    assert_eq!(
        e.liquidate_at_oracle_not_atomic(9, 3, PX, LiquidationPolicy::FullClose, 0, H_MIN, H_MAX),
        Err(RiskError::AccountNotFound)
    );
}

#[test]
fn full_liquidation_closes_and_charges() {
    let mut e = market();
    trade(&mut e, 0, 1, PX, 2, 9_000_000).unwrap();
    // 630_000 lost, 370_000 left, 418_500 asked for.
    assert_eq!(
        e.liquidate_at_oracle_not_atomic(0, 3, 930_000, LiquidationPolicy::FullClose, 0, H_MIN, H_MAX),
        Ok(true)
    );
    assert_eq!(e.accounts[0].position_basis_q, 0);
    assert_eq!(e.accounts[0].capital.get(), 370_000 - 83_700);
    assert_eq!(e.insurance_fund.balance.get(), 83_700);
    assert_eq!(e.oi_eff_long_q, e.oi_eff_short_q);
    assert_books(&e);
}

#[test]
fn partial_liquidation_must_restore_health() {
    let mut e = market();
    trade(&mut e, 0, 1, PX, 2, 9_000_000).unwrap();
    let mut f = e.clone();
    assert_eq!(
        f.liquidate_at_oracle_not_atomic(0, 3, 930_000, LiquidationPolicy::ExactPartial(1_000), 0, H_MIN, H_MAX),
        Err(RiskError::Undercollateralized)
    );
    assert_eq!(
        e.liquidate_at_oracle_not_atomic(0, 3, 930_000, LiquidationPolicy::ExactPartial(3_000_000), 0, H_MIN, H_MAX),
        Ok(true)
    );
    assert_eq!(e.effective_pos_q(0), 6_000_000);
    // The other side shrinks by its index, which rounds down.
    assert_eq!(e.effective_pos_q(1), -5_999_999);
    assert_books(&e);
}

#[test]
fn bankruptcy_is_spread_over_the_other_side() {
    let mut e = market();
    trade(&mut e, 0, 1, PX, 2, 9_000_000).unwrap();
    let before = e.adl_coeff_short;
    assert_eq!(
        e.liquidate_at_oracle_not_atomic(0, 3, 500_000, LiquidationPolicy::FullClose, 0, H_MIN, H_MAX),
        Ok(true)
    );
    assert_eq!(e.accounts[0].pnl, 0);
    assert_eq!(e.accounts[0].capital.get(), 0);
    assert!(e.adl_coeff_short != before);
    settle(&mut e, 1, 500_000, 4).unwrap();
    // The winner gets what the loser had, and no more.
    assert!(e.accounts[1].pnl <= 1_000_000);
    assert_books(&e);
}

#[test]
fn crank_liquidates_candidates() {
    let mut e = market();
    trade(&mut e, 0, 1, PX, 2, 9_000_000).unwrap();
    let out = e
        .keeper_crank_not_atomic(
            3,
            930_000,
            &[(7, Some(LiquidationPolicy::FullClose)), (0, Some(LiquidationPolicy::FullClose)), (1, None)],
            64,
            0,
            H_MIN,
            H_MAX,
        )
        .unwrap();
    assert!(out.advanced);
    assert_eq!(out.num_liquidations, 1);
    assert_eq!(e.accounts[0].position_basis_q, 0);
    assert_books(&e);
}

#[test]
fn dust_is_reclaimed() {
    let mut e = market();
    e.accounts[1].capital = U128::new(400);
    e.c_tot = U128::new(1_000_400);
    e.vault = U128::new(1_000_400);
    assert_eq!(e.reclaim_empty_account_not_atomic(0, 2), Err(RiskError::Undercollateralized));
    assert_eq!(e.reclaim_empty_account_not_atomic(5, 2), Err(RiskError::AccountNotFound));
    assert_eq!(e.reclaim_empty_account_not_atomic(1, 2), Ok(()));
    assert!(!e.is_used(1));
    assert_eq!(e.insurance_fund.balance.get(), 400);
    assert_books(&e);
}

#[test]
fn garbage_is_collected() {
    let mut e = market();
    e.accounts[1].capital = U128::new(400);
    e.c_tot = U128::new(1_000_400);
    e.vault = U128::new(1_000_400);
    assert_eq!(e.garbage_collect_dust(), Ok(1));
    assert!(e.is_used(0) && !e.is_used(1));
    assert_eq!(e.insurance_fund.balance.get(), 400);
    assert_books(&e);
}

#[test]
fn closing_pays_out() {
    let mut e = market();
    assert_eq!(e.close_account_not_atomic(0, 2, PX, 0, H_MIN, H_MAX), Ok(1_000_000));
    assert!(!e.is_used(0));
    assert_eq!(e.vault.get(), 1_000_000);
    assert_books(&e);
}

#[test]
fn open_positions_are_not_closed() {
    let mut e = market();
    trade(&mut e, 0, 1, PX, 2, 1_000_000).unwrap();
    assert_eq!(
        e.close_account_not_atomic(0, 3, PX, 0, H_MIN, H_MAX),
        Err(RiskError::Undercollateralized)
    );
}

#[test]
fn closing_waits_for_profit() {
    let mut e = market();
    e.deposit_not_atomic(2, 1_000_000, PX, 1).unwrap();
    trade(&mut e, 0, 1, PX, 2, 1_000_000).unwrap();
    let up = PX + PX / 10;
    // Sold to a third account: the one that lost has not paid yet.
    trade(&mut e, 2, 0, up, 3, 1_000_000).unwrap();
    assert_eq!(e.effective_pos_q(0), 0);
    assert_eq!(e.accounts[0].reserved_pnl, 100_000);
    assert_eq!(
        e.clone().close_account_not_atomic(0, 3, up, 0, H_MIN, H_MAX),
        Err(RiskError::PnlNotWarmedUp)
    );
    settle(&mut e, 1, up, 4).unwrap();
    assert_eq!(e.close_account_not_atomic(0, 5, up, 0, H_MIN, H_MAX), Ok(1_100_000));
    assert_books(&e);
}

#[test]
fn insurance_is_topped_up() {
    let mut e = market();
    assert_eq!(e.top_up_insurance_fund(500, 2), Ok(true));
    assert_eq!(e.insurance_fund.balance.get(), 500);
    assert_eq!(e.vault.get(), 2_000_500);
    assert_eq!(e.top_up_insurance_fund(MAX_VAULT_TVL, 2), Err(RiskError::Overflow));
    assert_books(&e);
}

#[test]
fn fees_become_debt_and_are_paid() {
    let mut e = market();
    e.charge_account_fee_not_atomic(0, 1_000_300, 2).unwrap();
    assert_eq!(e.accounts[0].capital.get(), 0);
    assert_eq!(e.accounts[0].fee_credits.get(), -300);
    assert_eq!(e.insurance_fund.balance.get(), 1_000_000);
    e.deposit_fee_credits(0, 100, 3).unwrap();
    assert_eq!(e.accounts[0].fee_credits.get(), -200);
    assert_eq!(e.insurance_fund.balance.get(), 1_000_100);
    assert_eq!(e.vault.get(), 2_000_100);
    // A deposit pays the rest first.
    e.deposit_not_atomic(0, 1_000, PX, 4).unwrap();
    assert_eq!(e.accounts[0].fee_credits.get(), 0);
    assert_eq!(e.accounts[0].capital.get(), 800);
    assert_books(&e);
}

#[test]
fn recurring_fees_accrue_by_slot_once() {
    let mut e = market();
    e.sync_account_fee_to_slot_not_atomic(0, 11, 5).unwrap();
    assert_eq!(e.accounts[0].capital.get(), 999_950);
    assert_eq!(e.accounts[0].last_fee_slot, 11);
    e.sync_account_fee_to_slot_not_atomic(0, 11, 5).unwrap();
    assert_eq!(e.accounts[0].capital.get(), 999_950);
    assert_books(&e);
}

#[test]
fn flat_losses_are_settled() {
    let mut e = market();
    e.accounts[0].pnl = -1_000_400;
    e.neg_pnl_account_count = 1;
    e.insurance_fund.balance = U128::new(300);
    e.vault = U128::new(2_000_300);
    e.settle_flat_negative_pnl_not_atomic(0, 2).unwrap();
    assert_eq!(e.accounts[0].pnl, 0);
    assert_eq!(e.accounts[0].capital.get(), 0);
    assert_eq!(e.insurance_fund.balance.get(), 0);
    assert_books(&e);
}

#[test]
fn resolution_settles_at_the_final_price() {
    let mut e = market();
    trade(&mut e, 0, 1, PX, 2, 1_000_000).unwrap();
    let up = PX + PX / 10;
    e.resolve_market_not_atomic(ResolveMode::Ordinary, up, PX, 3, 0).unwrap();
    assert!(e.is_resolved());
    assert_eq!(e.resolved_context(), (up, 3));
    assert_eq!(e.deposit_not_atomic(0, 5, PX, 4), Err(RiskError::Unauthorized));
    assert!(!e.is_terminal_ready());
    // The winner cannot be paid before the loser has settled.
    assert_eq!(e.force_close_resolved_not_atomic(0), Ok(ResolvedCloseResult::ProgressOnly));
    assert_eq!(e.accounts[0].pnl, 100_000);
    let loser = e.force_close_resolved_not_atomic(1).unwrap();
    assert_eq!(loser.expect_closed("loser"), 900_000);
    assert!(e.is_terminal_ready());
    let winner = e.force_close_resolved_not_atomic(0).unwrap();
    assert!(!winner.is_progress_only());
    assert_eq!(winner, ResolvedCloseResult::Closed(1_100_000));
    assert_eq!(e.vault.get(), 0);
    assert_eq!(e.count_used(), 0);
}

#[test]
fn resolution_is_bounded_and_once_only() {
    let mut e = market();
    assert_eq!(
        e.clone().resolve_market_not_atomic(ResolveMode::Ordinary, 2 * PX, PX, 3, 0),
        Err(RiskError::Overflow)
    );
    assert_eq!(e.clone().resolve_market_not_atomic(ResolveMode::Degenerate, 2 * PX, PX, 3, 0), Ok(()));
    assert_eq!(e.clone().reconcile_resolved_not_atomic(0), Err(RiskError::Unauthorized));
    e.resolve_market_not_atomic(ResolveMode::Ordinary, PX, PX, 3, 0).unwrap();
    assert_eq!(
        e.resolve_market_not_atomic(ResolveMode::Ordinary, PX, PX, 4, 0),
        Err(RiskError::Unauthorized)
    );
    assert_eq!(e.reconcile_resolved_not_atomic(0), Ok(()));
    assert_eq!(e.close_resolved_terminal_not_atomic(0), Ok(1_000_000));
    assert_eq!(e.close_resolved_terminal_not_atomic(0), Err(RiskError::AccountNotFound));
}

#[test]
fn sides() {
    assert_eq!(percolator::types::side_of_i128(0), None);
    assert_eq!(percolator::types::side_of_i128(5), Some(Side::Long));
    assert_eq!(percolator::types::side_of_i128(-5), Some(Side::Short));
    assert_eq!(percolator::types::opposite_side(Side::Long), Side::Short);
}

#[test]
fn slots_are_reused() {
    let mut e = market();
    assert_eq!(e.free_head, 2);
    e.close_account_not_atomic(0, 2, PX, 0, H_MIN, H_MAX).unwrap();
    assert_eq!(e.free_head, 0);
    e.deposit_not_atomic(0, 2_000, PX, 3).unwrap();
    assert_eq!(e.accounts[0].last_fee_slot, 3);
    assert_eq!(e.free_head, 2);
    e.advance_slot(5);
    assert_eq!(e.current_slot, 8);
}

#[test]
fn capacity_is_enforced() {
    let mut p = params();
    p.max_accounts = 2;
    p.max_active_positions_per_side = 2;
    let mut e = RiskEngine::new_with_market(p, 1, PX);
    e.deposit_not_atomic(0, 1_000, PX, 1).unwrap();
    e.deposit_not_atomic(1, 1_000, PX, 1).unwrap();
    assert_eq!(e.deposit_not_atomic(2, 1_000, PX, 1), Err(RiskError::Overflow));
}

/// Four accounts: the first two bet against each other, and so do the others. The
/// losers lose more than they have, at the final price.
fn bankrupt_market() -> RiskEngine {
    let mut e = RiskEngine::new_with_market(params(), 1, PX);
    for i in 0..4 {
        e.deposit_not_atomic(i, 1_000_000, PX, 1).unwrap();
    }
    trade(&mut e, 0, 1, PX, 2, 8_000_000).unwrap();
    trade(&mut e, 2, 3, PX, 2, 6_000_000).unwrap();
    e.resolve_market_not_atomic(ResolveMode::Ordinary, PX + PX / 5, PX, 3, 0).unwrap();
    e
}

#[test]
fn payouts_do_not_depend_on_the_order() {
    let mut e = bankrupt_market();
    for i in 0..4 {
        e.reconcile_resolved_not_atomic(i).unwrap();
    }
    assert!(e.is_terminal_ready());
    assert_eq!(e.accounts[0].pnl, 1_600_000);
    assert_eq!(e.accounts[2].pnl, 1_200_000);
    // Both losers lost all they had, which is shared out over the profits.
    let share = |p: u128| p * 2_000_000 / 2_800_000;
    let mut paid: Vec<Vec<u128>> = Vec::new();
    for order in [[0u16, 1, 2, 3], [3, 2, 1, 0], [2, 0, 3, 1]] {
        let mut f = e.clone();
        let mut row = vec![0; 4];
        for i in order {
            row[i as usize] = f.close_resolved_terminal_not_atomic(i).unwrap();
            assert_books(&f);
        }
        assert_eq!(f.count_used(), 0);
        paid.push(row);
    }
    assert_eq!(paid[0], vec![1_000_000 + share(1_600_000), 0, 1_000_000 + share(1_200_000), 0]);
    assert_eq!(paid[0], paid[1]);
    assert_eq!(paid[0], paid[2]);
}

#[test]
fn forced_closes_pay_everyone_once_all_is_settled() {
    let mut e = bankrupt_market();
    assert_eq!(e.force_close_resolved_not_atomic(0), Ok(ResolvedCloseResult::ProgressOnly));
    assert_eq!(e.force_close_resolved_not_atomic(2), Ok(ResolvedCloseResult::ProgressOnly));
    assert_eq!(e.force_close_resolved_not_atomic(1), Ok(ResolvedCloseResult::Closed(0)));
    assert_eq!(e.force_close_resolved_not_atomic(3), Ok(ResolvedCloseResult::Closed(0)));
    assert!(e.is_terminal_ready());
    assert_eq!(e.force_close_resolved_not_atomic(2), Ok(ResolvedCloseResult::Closed(1_857_142)));
    assert_eq!(e.force_close_resolved_not_atomic(0), Ok(ResolvedCloseResult::Closed(2_142_857)));
    assert_eq!(e.vault.get(), 1);
    assert_eq!(e.count_used(), 0);
}

#[test]
fn reconciling_twice_changes_nothing() {
    let mut e = bankrupt_market();
    for i in 0..4 {
        e.reconcile_resolved_not_atomic(i).unwrap();
        let once = e.clone();
        e.reconcile_resolved_not_atomic(i).unwrap();
        assert_eq!(e, once);
    }
}

#[test]
fn accruing_twice_changes_nothing() {
    let mut e = market();
    trade(&mut e, 0, 1, PX, 2, 1_000_000).unwrap();
    e.accrue_market_to(50, PX + 7, 90).unwrap();
    let once = e.clone();
    e.accrue_market_to(50, PX + 7, 90).unwrap();
    assert_eq!(e, once);
}

#[test]
fn flat_capital_survives_the_bankruptcy_of_others() {
    let mut e = market();
    e.deposit_not_atomic(2, 1_000_000, PX, 1).unwrap();
    trade(&mut e, 0, 1, PX, 2, 9_000_000).unwrap();
    e.liquidate_at_oracle_not_atomic(0, 3, 500_000, LiquidationPolicy::FullClose, 0, H_MIN, H_MAX).unwrap();
    settle(&mut e, 2, 500_000, 4).unwrap();
    assert_eq!(e.accounts[2].capital.get(), 1_000_000);
    withdraw(&mut e, 2, 1_000_000, 500_000, 5).unwrap();
    assert_eq!(e.accounts[2].capital.get(), 0);
    assert_books(&e);
}

#[test]
fn standing_hints_are_carried_out() {
    let mut e = market();
    trade(&mut e, 0, 1, PX, 2, 9_000_000).unwrap();
    // Too little to restore health: passed over. Enough: carried out.
    for (q, done) in [(1_000, 0), (3_000_000, 1)] {
        let mut f = e.clone();
        let out = f
            .keeper_crank_not_atomic(
                3,
                930_000,
                &[(0, Some(LiquidationPolicy::ExactPartial(q)))],
                64,
                0,
                H_MIN,
                H_MAX,
            )
            .unwrap();
        assert_eq!(out.num_liquidations, done);
        assert_books(&f);
    }
}

#[test]
fn drained_sides_are_reset() {
    let mut e = market();
    e.side_mode_long = SideMode::DrainOnly;
    settle(&mut e, 0, PX, 2).unwrap();
    // Nothing was open, so that the side is ready for use at once.
    assert_eq!(e.side_mode_long, SideMode::Normal);
    assert_eq!(e.adl_epoch_long, 1);
    assert_eq!(e.finalize_side_reset(Side::Long), Err(RiskError::CorruptState));
    e.side_mode_long = SideMode::ResetPending;
    assert_eq!(e.finalize_side_reset(Side::Long), Ok(()));
    assert_eq!(e.side_mode_long, SideMode::Normal);
}

#[test]
fn conversion_stops_where_equity_would() {
    let mut e = market();
    // Of a profit of 1_000, at a haircut of one in ten, with 270 of fee debt to
    // cover and no capital: 730 of equity, and 811 may be converted.
    e.accounts[0].capital = U128::new(0);
    e.c_tot = U128::new(1_000_000);
    e.accounts[0].pnl = 1_000;
    e.accounts[0].fee_credits = I128::new(-270);
    e.pnl_pos_tot = 1_000;
    e.pnl_matured_pos_tot = 1_000;
    e.vault = U128::new(1_000_100);
    assert_eq!(e.max_safe_flat_conversion_released(0, 1_000, 100, 1_000), 811);
    assert_eq!(e.account_equity_init_net(&e.accounts[0], 0), 0);
}

/// Open interest is what the positions come to, up to the dust bound.
fn assert_backed(e: &RiskEngine) {
    let used: Vec<usize> = (0..64).filter(|i| e.is_used(*i)).collect();
    let long: i128 = used.iter().map(|i| e.effective_pos_q(*i)).filter(|q| *q > 0).sum();
    let short: i128 = used.iter().map(|i| -e.effective_pos_q(*i)).filter(|q| *q > 0).sum();
    // Each position may stand for up to one unit more than it shows.
    let n = used.len() as u128;
    assert!(long as u128 <= e.oi_eff_long_q);
    assert!(e.oi_eff_long_q <= long as u128 + n + e.phantom_dust_bound_long_q);
    assert!(short as u128 <= e.oi_eff_short_q);
    assert!(e.oi_eff_short_q <= short as u128 + n + e.phantom_dust_bound_short_q);
}

#[test]
fn open_interest_is_backed_by_positions() {
    let mut e = RiskEngine::new_with_market(params(), 1, PX);
    for i in 0..6 {
        e.deposit_not_atomic(i, 1_000_000, PX, 1).unwrap();
    }
    trade(&mut e, 0, 1, PX, 2, 9_000_000).unwrap();
    trade(&mut e, 2, 3, PX, 2, 1_000_003).unwrap();
    trade(&mut e, 4, 5, PX, 2, 777_777).unwrap();
    assert_backed(&e);
    assert_eq!(e.phantom_dust_bound_short_q, 0);
    let out = e.liquidate_at_oracle_not_atomic(
        0,
        3,
        930_000,
        LiquidationPolicy::ExactPartial(3_000_001),
        0,
        H_MIN,
        H_MAX,
    );
    assert_eq!(out, Ok(true));
    assert!(e.phantom_dust_bound_short_q > 0);
    assert_backed(&e);
    // Closing positions that were scaled down leaves dust, which the bound covers.
    let q = e.effective_pos_q(3);
    trade(&mut e, 3, 1, 930_000, 4, -q).unwrap();
    assert_backed(&e);
    let q = e.effective_pos_q(5);
    trade(&mut e, 5, 1, 930_000, 5, -q).unwrap();
    assert_backed(&e);
    assert_books(&e);
}

#[test]
fn a_deficit_is_charged_to_the_other_side() {
    let mut e = market();
    e.deposit_not_atomic(2, 1_000_000, PX, 1).unwrap();
    trade(&mut e, 0, 1, PX, 2, 6_000_000).unwrap();
    trade(&mut e, 2, 1, PX, 2, 3_000_000).unwrap();
    // At half the price the first account owes three million and has one.
    let out = e.liquidate_at_oracle_not_atomic(0, 3, 500_000, LiquidationPolicy::FullClose, 0, H_MIN, H_MAX);
    assert_eq!(out, Ok(true));
    settle(&mut e, 1, 500_000, 4).unwrap();
    // Nine times half a million in profit, less the two million that are missing
    // and one unit by which the indices, at a ninth and at a third, are rounded.
    assert_eq!(e.accounts[1].pnl, 2_499_999);
    assert_eq!(e.effective_pos_q(1), -2_999_999);
    assert_backed(&e);
    assert_books(&e);
}

#[test]
fn a_new_context_is_empty() {
    let c = percolator::types::InstructionContext::new();
    assert!(!c.pending_reset_long && !c.pending_reset_short);
    assert_eq!((c.admit_h_min_shared, c.admit_h_max_shared), (0, 0));
    assert_eq!((c.touched_count, c.h_max_sticky_count), (0, 0));
    assert_eq!(c.touched_accounts, [0; 64]);
    assert_eq!(c.h_max_sticky_accounts, [0; 64]);
}

#[test]
fn touched_accounts_are_in_ascending_order() {
    let mut c = percolator::types::InstructionContext::new();
    assert!(c.add_touched(5));
    assert!(c.add_touched(2));
    assert_eq!(c.touched_count, 2);
    assert_eq!(c.touched_accounts[..2], [2, 5]);
    assert!(c.add_touched(5));
    assert!(c.add_touched(9));
    assert!(c.add_touched(3));
    assert_eq!(c.touched_count, 4);
    assert_eq!(c.touched_accounts[..4], [2, 3, 5, 9]);
    for i in 100..160 {
        assert!(c.add_touched(i));
    }
    assert_eq!(c.touched_count, 64);
    assert!(c.add_touched(3));
    assert!(!c.add_touched(1));
    assert_eq!(c.touched_accounts[..4], [2, 3, 5, 9]);
}

#[test]
fn early_refusals_change_nothing() {
    let mut e = market();
    trade(&mut e, 0, 1, PX, 2, 1_000_000).unwrap();
    let before = e.clone();
    // A first deposit that is too small, a crank over too many accounts, and
    // arguments that make no sense.
    assert_eq!(e.deposit_not_atomic(2, 999, PX, 9), Err(RiskError::InsufficientBalance));
    assert_eq!(e, before);
    assert_eq!(
        e.keeper_crank_not_atomic(9, PX + 1, &[(0, None)], 65, 0, H_MIN, H_MAX),
        Err(RiskError::Overflow)
    );
    assert_eq!(e, before);
    assert_eq!(trade(&mut e, 0, 0, PX + 1, 9, 1_000), Err(RiskError::Overflow));
    assert_eq!(withdraw(&mut e, 9, 1, PX + 1, 9), Err(RiskError::AccountNotFound));
    assert_eq!(settle(&mut e, 0, 0, 9), Err(RiskError::Overflow));
    assert_eq!(settle(&mut e, 0, PX, 1), Err(RiskError::Overflow));
    assert_eq!(e.charge_account_fee_not_atomic(0, 5, 1), Err(RiskError::Overflow));
    assert_eq!(e.settle_flat_negative_pnl_not_atomic(0, 9), Err(RiskError::Undercollateralized));
    assert_eq!(e.reconcile_resolved_not_atomic(0), Err(RiskError::Unauthorized));
    assert_eq!(e.close_resolved_terminal_not_atomic(0), Err(RiskError::Unauthorized));
    assert_eq!(
        e.resolve_market_not_atomic(ResolveMode::Ordinary, 0, PX, 9, 0),
        Err(RiskError::Overflow)
    );
    assert_eq!(e, before);
}

#[test]
fn losses_are_paid_at_once() {
    let mut e = market();
    e.deposit_not_atomic(2, 1_000_000, PX, 1).unwrap();
    trade(&mut e, 0, 1, PX, 2, 9_000_000).unwrap();
    for (slot, px) in [(3, 960_000), (4, 1_030_000), (5, 700_000)] {
        for i in 0..3 {
            settle(&mut e, i, px, slot).unwrap();
            assert!(e.accounts.iter().all(|a| a.pnl >= 0 || a.capital.get() == 0));
        }
    }
    assert_books(&e);
}

#[test]
fn insurance_alone_absorbs_what_a_flat_account_owes() {
    let mut e = market();
    e.top_up_insurance_fund(300, 1).unwrap();
    e.accounts[0].capital = U128::new(0);
    e.c_tot = U128::new(1_000_000);
    e.vault = U128::new(1_000_300);
    e.accounts[0].pnl = -400;
    e.neg_pnl_account_count = 1;
    e.settle_flat_negative_pnl_not_atomic(0, 2).unwrap();
    assert_eq!(e.accounts[0].pnl, 0);
    assert_eq!(e.accounts[0].capital.get(), 0);
    assert_eq!(e.insurance_fund.balance.get(), 0);
    assert_eq!(e.accounts[1].capital.get(), 1_000_000);
    assert_books(&e);
}

#[test]
fn cranks_without_hints_liquidate_nobody() {
    let mut e = market();
    trade(&mut e, 0, 1, PX, 2, 9_000_000).unwrap();
    let out = e.keeper_crank_not_atomic(3, 930_000, &[(0, None), (1, None)], 64, 0, H_MIN, H_MAX).unwrap();
    assert_eq!(out.num_liquidations, 0);
    assert_eq!(out.num_gc_closed, 0);
    assert!(out.advanced);
    assert_eq!(e.last_crank_slot, 3);
    assert_eq!(e.effective_pos_q(0), 9_000_000);
}

#[test]
fn collecting_lowers_capital_before_insurance_rises() {
    let mut e = market();
    e.accounts[1].capital = U128::new(400);
    e.insurance_fund.balance = U128::new(u128::MAX);
    // The total is too small for the account, and the fund has no room.
    e.c_tot = U128::new(100);
    assert_eq!(e.clone().garbage_collect_dust(), Err(RiskError::CorruptState));
    assert_eq!(e.clone().reclaim_empty_account_not_atomic(1, 2), Err(RiskError::Overflow));
    // Only the fund has no room.
    e.c_tot = U128::new(1_000_400);
    assert_eq!(e.clone().garbage_collect_dust(), Err(RiskError::Overflow));
    assert_eq!(e.reclaim_empty_account_not_atomic(1, 2), Err(RiskError::Overflow));
}
