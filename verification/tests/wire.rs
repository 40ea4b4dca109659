use percolator::address::Pubkey;
use percolator::layout::ENGINE_SIZE;
use percolator::oracle::error::OracleError;
use percolator::oracle::instruction::{
    pk_bytes, ConvertSourceArgs, InitializeFeedArgs, InstructionTag as OracleTag, OracleInstruction,
};
use percolator::oracle::state::{Feed, SourceKind, RING_LEN};
use percolator::program::error::PercolatorError;
use percolator::program::instruction::{
    BootstrapLpArgs, CrankArgs, CrankKind, CreateMarketArgs, CreateSlabArgs, DepositArgs,
    InitializeEngineArgs, InstructionTag, LiquidateArgs, PercolatorInstruction, PlaceOrderArgs,
    RiskParamsArgs, WithdrawArgs,
};
use percolator::program::state::{
    engine_region_size, slab_account_size, SlabHeader, ENGINE_OFFSET, ORIGIN_OPEN, ORIGIN_SEEDED,
};

fn sample_risk_params_args() -> RiskParamsArgs {
    RiskParamsArgs {
        maintenance_margin_bps: 500,
        initial_margin_bps: 1_000,
        trading_fee_bps: 10,
        max_accounts: 64,
        max_crank_staleness_slots: 1_000,
        liquidation_fee_bps: 100,
        liquidation_fee_cap: 1_000_000_000_000,
        min_liquidation_abs: 10_000,
        min_initial_deposit: 1_000_000_000,
        min_nonzero_mm_req: 100,
        min_nonzero_im_req: 200,
        insurance_floor: 0,
        h_min: 10,
        h_max: 1_000,
        resolve_price_deviation_bps: 500,
        max_accrual_dt_slots: 1_000,
        max_abs_funding_e9_per_slot: 100,
        min_funding_lifetime_slots: 1_000,
        max_active_positions_per_side: 64,
    }
}

#[test]
fn header_layout_is_104_bytes() {
    assert_eq!(SlabHeader::LEN, 104);
}

#[test]
fn header_roundtrip() {
    let mut h = SlabHeader::new(
        Pubkey::new_from_array([1u8; 32]),
        Pubkey::new_from_array([2u8; 32]),
        Pubkey::new_from_array([3u8; 32]),
        254,
        253,
    );
    h.initialized = 1;
    h.origin = ORIGIN_OPEN;
    let mut buf = vec![0u8; SlabHeader::LEN];
    h.write_into(&mut buf).unwrap();
    let read = SlabHeader::read_from(&buf).unwrap();
    assert_eq!(h, read);
    assert!(read.is_initialized());
    assert_eq!(read.vault_bump, 253);
    assert_eq!(read.origin, ORIGIN_OPEN);
}

#[test]
fn header_leaves_the_rest_of_the_buffer() {
    let h = SlabHeader::new(
        Pubkey::new_from_array([1u8; 32]),
        Pubkey::new_from_array([2u8; 32]),
        Pubkey::new_from_array([3u8; 32]),
        7,
        8,
    );
    let mut buf = vec![9u8; SlabHeader::LEN + 3];
    h.write_into(&mut buf).unwrap();
    assert_eq!(&buf[0..32], &[1u8; 32]);
    assert_eq!(&buf[32..64], &[2u8; 32]);
    assert_eq!(&buf[64..96], &[3u8; 32]);
    assert_eq!(&buf[96..104], &[7, 0, 8, 0, 0, 0, 0, 0]);
    assert_eq!(&buf[104..], &[9, 9, 9]);
}

#[test]
fn short_header_buffer_is_refused() {
    let h = SlabHeader::new(
        Pubkey::new_from_array([1u8; 32]),
        Pubkey::new_from_array([2u8; 32]),
        Pubkey::new_from_array([3u8; 32]),
        0,
        0,
    );
    let mut buf = vec![5u8; SlabHeader::LEN - 1];
    assert_eq!(h.write_into(&mut buf), Err(PercolatorError::SlabSizeMismatch));
    assert!(buf.iter().all(|&b| b == 5));
    assert_eq!(SlabHeader::read_from(&buf), Err(PercolatorError::SlabSizeMismatch));
}

#[test]
fn fresh_header_defaults_to_seeded_origin() {
    let h = SlabHeader::new(
        Pubkey::new_from_array([0u8; 32]),
        Pubkey::new_from_array([0u8; 32]),
        Pubkey::new_from_array([0u8; 32]),
        0,
        0,
    );
    assert_eq!(h.origin, ORIGIN_SEEDED);
}

#[test]
fn fresh_header_is_not_initialized() {
    let h = SlabHeader::new(
        Pubkey::new_from_array([0u8; 32]),
        Pubkey::new_from_array([0u8; 32]),
        Pubkey::new_from_array([0u8; 32]),
        0,
        0,
    );
    assert!(!h.is_initialized());
}

#[test]
fn slab_size_is_header_plus_engine() {
    assert_eq!(slab_account_size(), SlabHeader::LEN + ENGINE_SIZE);
    assert_eq!(engine_region_size(), ENGINE_SIZE);
    assert_eq!(ENGINE_OFFSET, SlabHeader::LEN);
}

#[test]
fn slab_header_len_unchanged() {
    assert_eq!(SlabHeader::LEN, 104, "header stays 104 bytes");
}

#[test]
fn seeded_header_origin_still_zero() {
    let h = SlabHeader::new(
        Pubkey::new_from_array([1u8; 32]),
        Pubkey::new_from_array([2u8; 32]),
        Pubkey::new_from_array([3u8; 32]),
        0,
        0,
    );
    assert_eq!(h.origin, ORIGIN_SEEDED);
    assert_eq!(ORIGIN_SEEDED, 0);
    assert_eq!(ORIGIN_OPEN, 1);
}

#[test]
fn roundtrip_create_slab() {
    let ix = PercolatorInstruction::CreateSlab(CreateSlabArgs { bump: 253, vault_bump: 250 });
    let bytes = ix.pack();
    assert_eq!(bytes[0], InstructionTag::CreateSlab as u8);
    let decoded = PercolatorInstruction::unpack(&bytes).unwrap();
    assert_eq!(decoded, ix);
}

fn every_variant() -> Vec<PercolatorInstruction> {
    vec![
        PercolatorInstruction::CreateSlab(CreateSlabArgs { bump: 0, vault_bump: 255 }),
        PercolatorInstruction::Deposit(DepositArgs { amount: 12_345 }),
        PercolatorInstruction::Withdraw(WithdrawArgs { amount: 99 }),
        PercolatorInstruction::PlaceOrder(PlaceOrderArgs {
            side: 1,
            size: 1_000_000,
            max_price: 2_000,
            min_price: 1_000,
        }),
        PercolatorInstruction::Liquidate(LiquidateArgs { victim_slot: 17 }),
        PercolatorInstruction::Crank(CrankArgs { kind: CrankKind::Funding as u8 }),
        PercolatorInstruction::InitializeEngine(InitializeEngineArgs {
            risk_params: sample_risk_params_args(),
            init_oracle_price: 1_000,
        }),
        PercolatorInstruction::BootstrapLp(BootstrapLpArgs { amount: 1_000_000 }),
        PercolatorInstruction::CreateMarket(CreateMarketArgs {
            vault_bump: 250,
            fee_lamports: 500_000_000,
        }),
    ]
}

#[test]
fn roundtrip_all_variants() {
    for ix in every_variant() {
        let bytes = ix.pack();
        let decoded = PercolatorInstruction::unpack(&bytes).unwrap();
        assert_eq!(decoded, ix);
    }
}

#[test]
fn roundtrip_initialize_engine_preserves_every_field() {
    let args =
        InitializeEngineArgs { risk_params: sample_risk_params_args(), init_oracle_price: 4_242 };
    let ix = PercolatorInstruction::InitializeEngine(args.clone());
    let bytes = ix.pack();
    assert_eq!(bytes[0], InstructionTag::InitializeEngine as u8);
    let decoded = PercolatorInstruction::unpack(&bytes).unwrap();
    match decoded {
        PercolatorInstruction::InitializeEngine(got) => assert_eq!(got, args),
        _ => panic!("wrong variant decoded"),
    }
}

#[test]
fn empty_input_rejected() {
    assert!(PercolatorInstruction::unpack(&[]).is_err());
}

#[test]
fn unknown_tag_rejected() {
    assert!(PercolatorInstruction::unpack(&[255, 0, 0, 0]).is_err());
}

#[test]
fn wire_bytes_are_exact() {
    let order = PercolatorInstruction::PlaceOrder(PlaceOrderArgs {
        side: 1,
        size: 0x0102,
        max_price: 3,
        min_price: 4,
    });
    assert_eq!(
        order.pack(),
        vec![3, 1, 2, 1, 0, 0, 0, 0, 0, 0, 3, 0, 0, 0, 0, 0, 0, 0, 4, 0, 0, 0, 0, 0, 0, 0]
    );
    let victim = PercolatorInstruction::Liquidate(LiquidateArgs { victim_slot: 0x0201 });
    assert_eq!(victim.pack(), vec![4, 1, 2]);
}

#[test]
fn short_and_long_bodies_are_refused() {
    for ix in every_variant() {
        let bytes = ix.pack();
        let mut long = bytes.clone();
        long.push(0);
        assert_eq!(
            PercolatorInstruction::unpack(&long),
            Err(PercolatorError::InvalidInstructionData)
        );
        assert_eq!(
            PercolatorInstruction::unpack(&bytes[..bytes.len() - 1]),
            Err(PercolatorError::InvalidInstructionData)
        );
    }
}

#[test]
fn tags_count_up_in_order() {
    let tags: Vec<u8> = every_variant().iter().map(|ix| ix.pack()[0]).collect();
    assert_eq!(tags, vec![0, 1, 2, 3, 4, 5, 6, 7, 8]);
}

#[test]
fn params_travel_unchanged() {
    let p = sample_risk_params_args().into_engine_params();
    assert_eq!(p.max_accounts, 64);
    assert_eq!(p.liquidation_fee_cap.get(), 1_000_000_000_000);
    assert_eq!(p.min_initial_deposit.get(), 1_000_000_000);
    assert_eq!(p.min_funding_lifetime_slots, 1_000);
}

#[test]
fn program_error_numbers() {
    assert_eq!(PercolatorError::NotImplemented.code(), 0);
    assert_eq!(PercolatorError::ZeroAmount.code(), 16);
    assert_eq!(PercolatorError::ListingFeeTooLow.code(), 33);
    assert_eq!(PercolatorError::StaleOracle.code(), PercolatorError::StaleOracle as u32);
}

#[test]
fn oracle_error_numbers() {
    assert_eq!(OracleError::InvalidInstructionData.code(), 0);
    assert_eq!(OracleError::StaleSource.code(), 7);
    assert_eq!(OracleError::InvalidParameters.code(), OracleError::InvalidParameters as u32);
}

#[test]
fn roundtrip_initialize_feed() {
    let ix = OracleInstruction::InitializeFeed(InitializeFeedArgs {
        mint: [1u8; 32],
        source: [2u8; 32],
        source_kind: 0,
    });
    let bytes = ix.pack();
    assert_eq!(bytes[0], OracleTag::InitializeFeed as u8);
    assert_eq!(OracleInstruction::unpack(&bytes).unwrap(), ix);
}

#[test]
fn roundtrip_update_graduate() {
    let bytes = OracleInstruction::Update.pack();
    assert_eq!(OracleInstruction::unpack(&bytes).unwrap(), OracleInstruction::Update);
    let bytes = OracleInstruction::Graduate.pack();
    assert_eq!(OracleInstruction::unpack(&bytes).unwrap(), OracleInstruction::Graduate);
}

#[test]
fn roundtrip_convert_source() {
    let ix = OracleInstruction::ConvertSource(ConvertSourceArgs {
        new_kind: 2,
        new_source: [9u8; 32],
    });
    let bytes = ix.pack();
    assert_eq!(OracleInstruction::unpack(&bytes).unwrap(), ix);
}

#[test]
fn instruction_unknown_tag_rejected() {
    assert!(OracleInstruction::unpack(&[255]).is_err());
}

#[test]
fn oracle_bodies_are_checked_only_where_there_are_fields() {
    assert_eq!(OracleInstruction::unpack(&[1, 7, 7]), Ok(OracleInstruction::Update));
    assert_eq!(OracleInstruction::unpack(&[2, 7]), Ok(OracleInstruction::Graduate));
    let mut long = OracleInstruction::ConvertSource(ConvertSourceArgs {
        new_kind: 2,
        new_source: [9u8; 32],
    })
    .pack();
    long.push(0);
    assert_eq!(OracleInstruction::unpack(&long), Err(OracleError::InvalidInstructionData));
    assert_eq!(OracleInstruction::unpack(&[]), Err(OracleError::InvalidInstructionData));
}

#[test]
fn key_bytes_are_the_key() {
    assert_eq!(pk_bytes(&Pubkey::new_from_array([4u8; 32])), [4u8; 32]);
}

#[test]
fn feed_roundtrip_and_price_first() {
    let mut ring = [0u64; RING_LEN];
    ring[0] = 5;
    ring[29] = u64::MAX;
    let f = Feed {
        price_lamports_per_token: 0x0807_0605_0403_0201,
        last_update_slot: 99,
        mint: Pubkey::new_from_array([1u8; 32]),
        source: Pubkey::new_from_array([2u8; 32]),
        source_kind: SourceKind::MeteoraDlmm as u8,
        graduated: 1,
        initialized: 1,
        ring_idx: 29,
        _pad: [1, 2, 3, 4],
        ring_buffer: ring,
    };
    let mut buf = vec![7u8; Feed::LEN + 2];
    f.write_into(&mut buf).unwrap();
    assert_eq!(&buf[..8], &[1, 2, 3, 4, 5, 6, 7, 8]);
    assert_eq!(&buf[80..88], &[3, 1, 1, 29, 1, 2, 3, 4]);
    assert_eq!(&buf[Feed::LEN..], &[7, 7]);
    assert_eq!(Feed::read_from(&buf).unwrap(), f);
    assert_eq!(Feed::LEN, 328);
    let mut short = vec![7u8; Feed::LEN - 1];
    assert_eq!(f.write_into(&mut short), Err(OracleError::FeedSizeMismatch));
    assert_eq!(Feed::read_from(&short), Err(OracleError::FeedSizeMismatch));
}
