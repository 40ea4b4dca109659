use percolator::constants::MAX_ACCOUNTS;
use percolator::int128::U128;
use percolator::layout::{
    ACCOUNT_SIZE, ACC_CAPITAL, ACC_KIND, ACC_OWNER, ACC_PNL, ACC_POSITION_BASIS_Q,
    ACC_RESERVED_PNL, ENGINE_SIZE, OFF_ACCOUNTS, OFF_ADL_COEFF_LONG, OFF_ADL_COEFF_SHORT,
    OFF_ADL_MULT_LONG, OFF_ADL_MULT_SHORT, OFF_C_TOT, OFF_INSURANCE_FUND, OFF_LAST_ORACLE_PRICE,
    OFF_NUM_USED_ACCOUNTS, OFF_OI_EFF_LONG_Q, OFF_OI_EFF_SHORT_Q, OFF_PNL_MATURED_POS_TOT,
    OFF_PNL_POS_TOT, OFF_SIDE_MODE_LONG, OFF_SIDE_MODE_SHORT, OFF_VAULT,
};
use percolator::types::{RiskEngine, RiskParams, SideMode};

fn params() -> RiskParams {
    RiskParams {
        maintenance_margin_bps: 500,
        initial_margin_bps: 1_000,
        trading_fee_bps: 10,
        max_accounts: 64,
        max_crank_staleness_slots: 1_000,
        liquidation_fee_bps: 100,
        liquidation_fee_cap: U128::new(1_000_000_000_000),
        min_liquidation_abs: U128::new(10_000),
        min_initial_deposit: U128::new(1_000),
        min_nonzero_mm_req: 100,
        min_nonzero_im_req: 200,
        insurance_floor: U128::new(0),
        h_min: 10,
        h_max: 1_000,
        resolve_price_deviation_bps: 500,
        max_accrual_dt_slots: 1_000,
        max_abs_funding_e9_per_slot: 100,
        min_funding_lifetime_slots: 1_000,
        max_active_positions_per_side: 64,
    }
}

fn print_offset(label: &str, off: usize) {
    println!("  {:<26} {}", format!("{}:", label), off);
}

fn read_u128_le(b: &[u8], off: usize) -> u128 {
    let mut arr = [0u8; 16];
    arr.copy_from_slice(&b[off..off + 16]);
    u128::from_le_bytes(arr)
}

fn read_i128_le(b: &[u8], off: usize) -> i128 {
    let mut arr = [0u8; 16];
    arr.copy_from_slice(&b[off..off + 16]);
    i128::from_le_bytes(arr)
}

fn read_u64_le(b: &[u8], off: usize) -> u64 {
    let mut arr = [0u8; 8];
    arr.copy_from_slice(&b[off..off + 8]);
    u64::from_le_bytes(arr)
}

fn read_u16_le(b: &[u8], off: usize) -> u16 {
    let mut arr = [0u8; 2];
    arr.copy_from_slice(&b[off..off + 2]);
    u16::from_le_bytes(arr)
}

#[test]
fn print_and_verify_engine_layout() {
    println!("\n==== RiskEngine / Account layout (host) ====");
    println!("RiskEngine size: {}", ENGINE_SIZE);
    println!("Account size:    {}", ACCOUNT_SIZE);
    println!("\nRiskEngine offsets:");
    print_offset("vault", OFF_VAULT);
    print_offset("insurance_fund", OFF_INSURANCE_FUND);
    print_offset("c_tot", OFF_C_TOT);
    print_offset("pnl_pos_tot", OFF_PNL_POS_TOT);
    print_offset("pnl_matured_pos_tot", OFF_PNL_MATURED_POS_TOT);
    print_offset("adl_mult_long", OFF_ADL_MULT_LONG);
    print_offset("adl_mult_short", OFF_ADL_MULT_SHORT);
    print_offset("adl_coeff_long", OFF_ADL_COEFF_LONG);
    print_offset("adl_coeff_short", OFF_ADL_COEFF_SHORT);
    print_offset("oi_eff_long_q", OFF_OI_EFF_LONG_Q);
    print_offset("oi_eff_short_q", OFF_OI_EFF_SHORT_Q);
    print_offset("side_mode_long", OFF_SIDE_MODE_LONG);
    print_offset("side_mode_short", OFF_SIDE_MODE_SHORT);
    print_offset("last_oracle_price", OFF_LAST_ORACLE_PRICE);
    print_offset("num_used_accounts", OFF_NUM_USED_ACCOUNTS);
    print_offset("accounts", OFF_ACCOUNTS);
    println!("\nAccount offsets:");
    print_offset("capital", ACC_CAPITAL);
    print_offset("kind", ACC_KIND);
    print_offset("pnl", ACC_PNL);
    print_offset("reserved_pnl", ACC_RESERVED_PNL);
    print_offset("position_basis_q", ACC_POSITION_BASIS_Q);
    print_offset("owner", ACC_OWNER);
    println!("============================================\n");

    const SENT_VAULT: u128 = 0x0111_0111_0111_0111_0111_0111_0111_0111;
    const SENT_CTOT: u128 = 0x0222_0222_0222_0222_0222_0222_0222_0222;
    const SENT_PNL_POS: u128 = 0x0333_0333_0333_0333_0333_0333_0333_0333;
    const SENT_PNL_MAT: u128 = 0x0444_0444_0444_0444_0444_0444_0444_0444;
    const SENT_ADL_ML: u128 = 0x0555_0555_0555_0555_0555_0555_0555_0555;
    const SENT_ADL_MS: u128 = 0x0666_0666_0666_0666_0666_0666_0666_0666;
    const SENT_ADL_CL: i128 = 0x0777_0777_0777_0777_0777_0777_0777_0777;
    const SENT_ADL_CS: i128 = 0x0888_0888_0888_0888_0888_0888_0888_0888;
    const SENT_OI_L: u128 = 0x0999_0999_0999_0999_0999_0999_0999_0999;
    const SENT_OI_S: u128 = 0x0aaa_0aaa_0aaa_0aaa_0aaa_0aaa_0aaa_0aaa;
    const SENT_LAST_ORACLE: u64 = 0xdeadbeefcafef00d;
    const SENT_NUM_USED: u16 = 0x1234;

    let mut engine = RiskEngine::new(params());
    engine.vault = U128::new(SENT_VAULT);
    engine.c_tot = U128::new(SENT_CTOT);
    engine.pnl_pos_tot = SENT_PNL_POS;
    engine.pnl_matured_pos_tot = SENT_PNL_MAT;
    engine.adl_mult_long = SENT_ADL_ML;
    engine.adl_mult_short = SENT_ADL_MS;
    engine.adl_coeff_long = SENT_ADL_CL;
    engine.adl_coeff_short = SENT_ADL_CS;
    engine.oi_eff_long_q = SENT_OI_L;
    engine.oi_eff_short_q = SENT_OI_S;
    engine.side_mode_long = SideMode::DrainOnly;
    engine.side_mode_short = SideMode::ResetPending;
    engine.last_oracle_price = SENT_LAST_ORACLE;
    engine.num_used_accounts = SENT_NUM_USED;
    engine.accounts[0].capital = U128::new(0xbbbb_bbbb_bbbb_bbbb_bbbb_bbbb_bbbb_bbbb);
    engine.accounts[0].pnl = -0x5555_5555_5555_5555_5555_5555_5555_5555i128;
    engine.accounts[0].reserved_pnl = 0xcccc_cccc_cccc_cccc_cccc_cccc_cccc_ccccu128;
    engine.accounts[0].position_basis_q = 0x7777_7777_7777_7777_7777_7777_7777_7777i128;
    engine.accounts[0].owner = [0xAB; 32];

    let image = engine.to_bytes();
    let bytes: &[u8] = &image;
    assert_eq!(bytes.len(), ENGINE_SIZE);

    assert_eq!(read_u128_le(bytes, OFF_VAULT), SENT_VAULT);
    assert_eq!(read_u128_le(bytes, OFF_C_TOT), SENT_CTOT);
    assert_eq!(read_u128_le(bytes, OFF_PNL_POS_TOT), SENT_PNL_POS);
    assert_eq!(read_u128_le(bytes, OFF_PNL_MATURED_POS_TOT), SENT_PNL_MAT);
    assert_eq!(read_u128_le(bytes, OFF_ADL_MULT_LONG), SENT_ADL_ML);
    assert_eq!(read_u128_le(bytes, OFF_ADL_MULT_SHORT), SENT_ADL_MS);
    assert_eq!(read_i128_le(bytes, OFF_ADL_COEFF_LONG), SENT_ADL_CL);
    assert_eq!(read_i128_le(bytes, OFF_ADL_COEFF_SHORT), SENT_ADL_CS);
    assert_eq!(read_u128_le(bytes, OFF_OI_EFF_LONG_Q), SENT_OI_L);
    assert_eq!(read_u128_le(bytes, OFF_OI_EFF_SHORT_Q), SENT_OI_S);
    assert_eq!(bytes[OFF_SIDE_MODE_LONG], 1); // DrainOnly
    assert_eq!(bytes[OFF_SIDE_MODE_SHORT], 2); // ResetPending
    assert_eq!(read_u64_le(bytes, OFF_LAST_ORACLE_PRICE), SENT_LAST_ORACLE);
    assert_eq!(read_u16_le(bytes, OFF_NUM_USED_ACCOUNTS), SENT_NUM_USED);

    let acct_base = OFF_ACCOUNTS;
    assert_eq!(
        read_u128_le(bytes, acct_base + ACC_CAPITAL),
        0xbbbb_bbbb_bbbb_bbbb_bbbb_bbbb_bbbb_bbbbu128
    );
    assert_eq!(
        read_i128_le(bytes, acct_base + ACC_PNL),
        -0x5555_5555_5555_5555_5555_5555_5555_5555i128
    );
    assert_eq!(
        read_u128_le(bytes, acct_base + ACC_RESERVED_PNL),
        0xcccc_cccc_cccc_cccc_cccc_cccc_cccc_ccccu128
    );
    assert_eq!(
        read_i128_le(bytes, acct_base + ACC_POSITION_BASIS_Q),
        0x7777_7777_7777_7777_7777_7777_7777_7777i128
    );
    let owner_off = acct_base + ACC_OWNER;
    assert!(bytes[owner_off..owner_off + 32].iter().all(|&b| b == 0xAB));

    // Two consecutive accounts are exactly one account size apart.
    let stride = ACCOUNT_SIZE;
    let slot1_capital_off = acct_base + stride + ACC_CAPITAL;
    assert_eq!(slot1_capital_off - (acct_base + ACC_CAPITAL), stride);
    engine.accounts[1].capital = U128::new(77);
    assert_eq!(read_u128_le(&engine.to_bytes(), slot1_capital_off), 77);
}

#[test]
fn engine_image_roundtrip() {
    let mut engine = RiskEngine::new_with_market(params(), 7, 42);
    engine.deposit_not_atomic(0, 5_000, 42, 8).unwrap();
    engine.deposit_not_atomic(1, 6_000, 42, 9).unwrap();
    engine.set_owner(1, [9u8; 32]).unwrap();
    let bytes = engine.to_bytes();
    assert_eq!(bytes.len(), ENGINE_SIZE);
    let back = RiskEngine::from_bytes(&bytes).unwrap();
    assert_eq!(back, engine);
    assert!(back.is_used(0) && back.is_used(1) && !back.is_used(2));
}

#[test]
fn bytes_of_no_engine_are_refused() {
    assert!(RiskEngine::from_bytes(&[]).is_none());
    assert!(RiskEngine::from_bytes(&vec![0u8; ENGINE_SIZE]).is_none());
    let engine = RiskEngine::new(params());
    let mut bytes = engine.to_bytes();
    bytes[OFF_SIDE_MODE_LONG] = 3;
    assert!(RiskEngine::from_bytes(&bytes).is_none());
    let mut long = engine.to_bytes();
    long.push(0);
    assert!(RiskEngine::from_bytes(&long).is_none());
}

#[test]
fn image_is_as_large_as_its_tables() {
    assert_eq!(ACCOUNT_SIZE, 384);
    assert_eq!(ENGINE_SIZE, OFF_ACCOUNTS + MAX_ACCOUNTS * ACCOUNT_SIZE);
}
