use percolator::address::{AccountView, Failure, Pubkey};
use percolator::oracle::error::OracleError;
use percolator::oracle::instruction::{
    ConvertSourceArgs, InitializeFeedArgs, InstructionTag, OracleInstruction,
};
use percolator::oracle::processor::{
    amm_price, read_meteora_dlmm, read_pump_bonding, read_pumpswap, read_raydium_cpmm, Processor,
};
use percolator::oracle::state::{ring_median, Feed, SourceKind, RING_LEN, STALE_SLOTS};

const INIT_PRICE: u64 = 1_000_000;

fn key(n: u8) -> Pubkey {
    Pubkey::new_from_array([n; 32])
}

fn program_id() -> Pubkey {
    key(200)
}

fn packed_pump_bonding(sol: u64, tokens: u64, complete: bool) -> Vec<u8> {
    let mut data = vec![0u8; 0xC0];
    data[0x08..0x10].copy_from_slice(&sol.to_le_bytes());
    data[0x10..0x18].copy_from_slice(&tokens.to_le_bytes());
    data[0xA6] = if complete { 1 } else { 0 };
    data
}

fn packed_amm(base: u64, quote: u64) -> Vec<u8> {
    let mut data = vec![0u8; 0x40];
    data[0x08..0x10].copy_from_slice(&base.to_le_bytes());
    data[0x10..0x18].copy_from_slice(&quote.to_le_bytes());
    data
}

fn packed_meteora(bin_id: i32, bin_step: u16, base_price: u64) -> Vec<u8> {
    let mut data = vec![0u8; 0x30];
    data[0x08..0x0C].copy_from_slice(&bin_id.to_le_bytes());
    data[0x0C..0x0E].copy_from_slice(&bin_step.to_le_bytes());
    data[0x0E..0x16].copy_from_slice(&base_price.to_le_bytes());
    data
}

/// A feed account and the source accounts around it.
struct World {
    feed: Vec<u8>,
    slot: u64,
}

impl World {
    fn new() -> World {
        World { feed: vec![0u8; Feed::LEN], slot: 1 }
    }

    fn send(&mut self, ix: OracleInstruction, source: Pubkey, data: &[u8]) -> Result<(), OracleError> {
        let accounts = vec![
            AccountView {
                key: key(100),
                owner: program_id(),
                is_signer: false,
                is_writable: true,
                data: self.feed.clone(),
            },
            AccountView {
                key: source,
                owner: key(0),
                is_signer: false,
                is_writable: false,
                data: data.to_vec(),
            },
        ];
        let bytes = ix.pack();
        assert!(Processor::is_ready(&program_id(), &accounts, &bytes));
        match Processor::process(&program_id(), &accounts, &bytes, self.slot) {
            Ok(feed) => {
                assert_eq!(feed.len(), self.feed.len());
                self.feed = feed;
                Ok(())
            }
            Err(Failure::Custom(e)) => Err(e),
            Err(Failure::NotEnoughAccountKeys) => panic!("two accounts were given"),
        }
    }

    fn init(&mut self, source: Pubkey, data: &[u8], kind: SourceKind) -> Result<(), OracleError> {
        let ix = OracleInstruction::InitializeFeed(InitializeFeedArgs {
            mint: [77; 32],
            source: source.to_bytes(),
            source_kind: kind as u8,
        });
        assert_eq!(ix.pack()[0], InstructionTag::InitializeFeed as u8);
        self.send(ix, source, data)
    }

    fn update(&mut self, source: Pubkey, data: &[u8]) -> Result<(), OracleError> {
        self.send(OracleInstruction::Update, source, data)
    }

    fn graduate(&mut self, source: Pubkey, data: &[u8]) -> Result<(), OracleError> {
        self.send(OracleInstruction::Graduate, source, data)
    }

    fn convert(&mut self, source: Pubkey, data: &[u8], kind: SourceKind) -> Result<(), OracleError> {
        let ix = OracleInstruction::ConvertSource(ConvertSourceArgs {
            new_kind: kind as u8,
            new_source: source.to_bytes(),
        });
        self.send(ix, source, data)
    }

    fn read(&self) -> Feed {
        Feed::read_from(&self.feed).unwrap()
    }
}

#[test]
fn initialize_feed_and_stale_source_rejected() {
    let mut w = World::new();
    assert_eq!(w.init(key(2), &packed_amm(0, 0), SourceKind::PumpSwap), Err(OracleError::StaleSource));
    w.init(key(1), &packed_amm(1_000, 2_000), SourceKind::PumpSwap).expect("init");
    let f = w.read();
    assert!(f.is_initialized());
    assert!(!f.is_graduated());
    assert_eq!(f.source_kind, SourceKind::PumpSwap as u8);
    assert_eq!(f.mint, key(77));
    assert_eq!(f.source, key(1));
    assert!(f.price_lamports_per_token > 0);
    assert_eq!(f.ring_idx, 1);
}

#[test]
fn update_pumpbonding_reads_reserves() {
    let mut w = World::new();
    w.init(
        key(1),
        &packed_pump_bonding(30_000_000_000, 1_000_000_000_000, false),
        SourceKind::PumpBonding,
    )
    .expect("init bonding");
    let p1 = w.read().price_lamports_per_token;
    assert!(p1 > 0);
    w.slot = 10;
    w.update(key(1), &packed_pump_bonding(30_000_000_000, 500_000_000_000, false)).expect("update");
    let p2 = w.read().price_lamports_per_token;
    assert!(p2 >= p1, "fewer tokens should not lower the price (median): p1={} p2={}", p1, p2);
    assert_eq!(w.read().last_update_slot, 10);
}

#[test]
fn update_pumpswap_appends_ring_and_reads_median() {
    let mut w = World::new();
    w.init(key(1), &packed_amm(1_000_000, INIT_PRICE), SourceKind::PumpSwap).expect("init");
    let mut prev_ring_idx = 1u8;
    for (step, (base, quote)) in [
        (1_000_000u64, INIT_PRICE),
        (2_000_000, INIT_PRICE),
        (3_000_000, INIT_PRICE),
        (4_000_000, INIT_PRICE),
        (5_000_000, INIT_PRICE),
    ]
    .iter()
    .enumerate()
    {
        w.slot = (step as u64 + 1) * 2;
        w.update(key(1), &packed_amm(*base, *quote)).expect("update");
        let f = w.read();
        assert_ne!(f.ring_idx, prev_ring_idx, "ring_idx advanced");
        prev_ring_idx = f.ring_idx;
    }
    let f = w.read();
    let mut observed: Vec<u64> = f.ring_buffer.iter().copied().filter(|v| *v != 0).collect();
    observed.sort();
    assert!(
        f.price_lamports_per_token >= observed[0]
            && f.price_lamports_per_token <= *observed.last().unwrap(),
        "median within ring bounds"
    );
    // 200_000, 250_000, 333_333, 500_000, 1_000_000, 1_000_000: the lower middle.
    assert_eq!(f.price_lamports_per_token, 333_333);
}

#[test]
fn update_raydium_reads_reserves() {
    let mut w = World::new();
    w.init(key(1), &packed_amm(10_000, 50_000), SourceKind::RaydiumCpmm).expect("init");
    assert_eq!(w.read().price_lamports_per_token, 5_000_000);
}

#[test]
fn update_meteora_reads_active_bin() {
    let mut w = World::new();
    w.init(key(1), &packed_meteora(10, 100, 1_000_000), SourceKind::MeteoraDlmm)
        .expect("init meteora");
    let f = w.read();
    assert!(
        f.price_lamports_per_token > 1_050_000 && f.price_lamports_per_token < 1_150_000,
        "meteora price ~ 1.1x base, got {}",
        f.price_lamports_per_token
    );
    // Ten multiplications by 1.01, each rounded down.
    assert_eq!(f.price_lamports_per_token, 1_104_620);
}

#[test]
fn graduate_requires_complete_flag() {
    let mut w = World::new();
    let open = packed_pump_bonding(10_000_000_000, 100_000_000_000, false);
    let done = packed_pump_bonding(10_000_000_000, 100_000_000_000, true);
    w.init(key(1), &open, SourceKind::PumpBonding).expect("init");
    assert_eq!(w.graduate(key(1), &open), Err(OracleError::NotGraduated));
    w.slot = 5;
    w.graduate(key(1), &done).expect("graduate");
    assert!(w.read().is_graduated());
}

#[test]
fn graduate_is_idempotent_once_only() {
    let mut w = World::new();
    let done = packed_pump_bonding(10_000_000_000, 100_000_000_000, true);
    w.init(key(1), &done, SourceKind::PumpBonding).expect("init");
    w.slot = 5;
    w.graduate(key(1), &done).expect("first graduate");
    w.slot = 6;
    assert_eq!(w.graduate(key(1), &done), Err(OracleError::AlreadyGraduated));
}

#[test]
fn convert_source_pump_bonding_to_pumpswap() {
    let mut w = World::new();
    let bonding = packed_pump_bonding(10_000_000_000, 100_000_000_000, true);
    w.init(key(1), &bonding, SourceKind::PumpBonding).expect("init");
    w.slot = 5;
    w.graduate(key(1), &bonding).expect("graduate");
    w.slot = 10;
    w.convert(key(2), &packed_amm(1_000_000, 2_000_000), SourceKind::PumpSwap).expect("convert");
    let f = w.read();
    assert_eq!(f.source, key(2));
    assert_eq!(f.source_kind, SourceKind::PumpSwap as u8);
    assert_eq!(f.ring_idx, 1);
    assert!(f.price_lamports_per_token > 0);
    assert_eq!(f.price_lamports_per_token, 2_000_000);
    assert_eq!(f.last_update_slot, 10);
    assert_eq!(f.ring_buffer.iter().filter(|v| **v != 0).count(), 1);
}

#[test]
fn convert_source_rejected_without_graduation() {
    let mut w = World::new();
    let bonding = packed_pump_bonding(10_000_000_000, 100_000_000_000, false);
    w.init(key(1), &bonding, SourceKind::PumpBonding).expect("init");
    assert_eq!(
        w.convert(key(2), &packed_amm(1_000_000, 2_000_000), SourceKind::PumpSwap),
        Err(OracleError::ConvertRequiresGraduation)
    );
}

#[test]
fn ring_buffer_wraps_and_median_stays_bounded() {
    let mut w = World::new();
    w.init(key(1), &packed_amm(1_000_000, 1_000_000), SourceKind::PumpSwap).expect("init");
    for i in 0..35u64 {
        let base = 1_000_000 - i * 10_000;
        w.slot = i + 2;
        w.update(key(1), &packed_amm(base, 1_000_000)).expect("update");
    }
    let f = w.read();
    assert!((f.ring_idx as usize) < RING_LEN);
    let observed_max = f.ring_buffer.iter().copied().max().unwrap();
    let observed_min = f.ring_buffer.iter().copied().filter(|v| *v != 0).min().unwrap();
    assert!(
        f.price_lamports_per_token >= observed_min && f.price_lamports_per_token <= observed_max,
        "median within bounds [{}, {}], got {}",
        observed_min,
        observed_max,
        f.price_lamports_per_token,
    );
    // Thirty-six prices into thirty entries: the next entry is the seventh.
    assert_eq!(f.ring_idx, 6);
}

#[test]
fn update_on_graduated_bonding_rejected() {
    let mut w = World::new();
    let done = packed_pump_bonding(10_000_000_000, 100_000_000_000, true);
    w.init(key(1), &done, SourceKind::PumpBonding).expect("init");
    w.slot = 5;
    w.graduate(key(1), &done).expect("grad");
    w.slot = 10;
    assert_eq!(w.update(key(1), &done), Err(OracleError::AlreadyGraduated));
}

#[test]
fn feed_is_set_up_once() {
    let mut w = World::new();
    let pool = packed_amm(1_000, 2_000);
    w.init(key(1), &pool, SourceKind::PumpSwap).expect("init");
    assert_eq!(w.init(key(1), &pool, SourceKind::PumpSwap), Err(OracleError::FeedAlreadyInitialized));
}

#[test]
fn untouched_feed_takes_no_updates() {
    let pool = packed_amm(1_000, 2_000);
    assert_eq!(World::new().update(key(1), &pool), Err(OracleError::FeedNotInitialized));
    assert_eq!(World::new().graduate(key(1), &pool), Err(OracleError::FeedNotInitialized));
    assert_eq!(
        World::new().convert(key(1), &pool, SourceKind::PumpSwap),
        Err(OracleError::FeedNotInitialized)
    );
}

#[test]
fn other_sources_are_refused() {
    let mut w = World::new();
    let pool = packed_amm(1_000, 2_000);
    w.init(key(1), &pool, SourceKind::PumpSwap).expect("init");
    assert_eq!(w.update(key(2), &pool), Err(OracleError::WrongSourceAccount));
    assert_eq!(w.graduate(key(2), &pool), Err(OracleError::WrongSourceAccount));
    // Graduation is for bonding curves.
    assert_eq!(w.graduate(key(1), &pool), Err(OracleError::InvalidSourceKind));
}

#[test]
fn unknown_source_kind_is_refused() {
    let mut w = World::new();
    let ix = OracleInstruction::InitializeFeed(InitializeFeedArgs {
        mint: [77; 32],
        source: [1; 32],
        source_kind: 4,
    });
    assert_eq!(w.send(ix, key(1), &packed_amm(1, 1)), Err(OracleError::InvalidSourceKind));
    let ix = OracleInstruction::InitializeFeed(InitializeFeedArgs {
        mint: [77; 32],
        source: [2; 32],
        source_kind: 1,
    });
    assert_eq!(w.send(ix, key(1), &packed_amm(1, 1)), Err(OracleError::WrongSourceAccount));
}

fn lone_update(owner: Pubkey, writable: bool, data: Vec<u8>) -> Result<Vec<u8>, Failure<OracleError>> {
    let accounts = vec![
        AccountView { key: key(100), owner, is_signer: false, is_writable: writable, data },
        AccountView {
            key: key(1),
            owner: key(0),
            is_signer: false,
            is_writable: false,
            data: packed_amm(1, 1),
        },
    ];
    Processor::process_update(&program_id(), &accounts, 3)
}

#[test]
fn feed_account_is_checked() {
    let good = vec![0u8; Feed::LEN];
    assert_eq!(
        lone_update(program_id(), false, good.clone()),
        Err(Failure::Custom(OracleError::AccountNotWritable))
    );
    assert_eq!(
        lone_update(key(9), true, good),
        Err(Failure::Custom(OracleError::FeedSizeMismatch))
    );
    assert_eq!(
        lone_update(program_id(), true, vec![0u8; Feed::LEN - 1]),
        Err(Failure::Custom(OracleError::FeedSizeMismatch))
    );
    assert_eq!(
        Processor::process(&program_id(), &[], &[1], 3),
        Err(Failure::NotEnoughAccountKeys)
    );
    assert_eq!(
        Processor::process(&program_id(), &[], &[9], 3),
        Err(Failure::Custom(OracleError::InvalidInstructionData))
    );
}

#[test]
fn unready_accounts_are_noticed() {
    let short = vec![
        AccountView {
            key: key(100),
            owner: program_id(),
            is_signer: false,
            is_writable: true,
            data: vec![0u8; 4],
        },
        AccountView {
            key: key(1),
            owner: key(0),
            is_signer: false,
            is_writable: false,
            data: vec![],
        },
    ];
    assert!(!Processor::is_ready(&program_id(), &short, &[2]));
    assert!(Processor::is_ready(&program_id(), &short, &[1]));
    let mut w = World::new();
    w.init(key(1), &packed_amm(1, 1), SourceKind::PumpSwap).expect("init");
    w.feed[83] = 30;
    let bent = vec![
        AccountView {
            key: key(100),
            owner: program_id(),
            is_signer: false,
            is_writable: true,
            data: w.feed.clone(),
        },
        AccountView {
            key: key(1),
            owner: key(0),
            is_signer: false,
            is_writable: false,
            data: packed_amm(1, 1),
        },
    ];
    assert!(!Processor::is_ready(&program_id(), &bent, &[1]));
}

#[test]
fn pool_prices() {
    assert_eq!(amm_price(50_000, 10_000), Ok(5_000_000));
    assert_eq!(amm_price(1, 3), Ok(333_333));
    assert_eq!(amm_price(1, 0), Err(OracleError::StaleSource));
    // A price beyond 64 bits is the largest price.
    assert_eq!(amm_price(u64::MAX, 1), Ok(u64::MAX));
    assert_eq!(read_pump_bonding(&packed_pump_bonding(30, 60, false)), Ok(500_000));
    assert_eq!(read_pumpswap(&packed_amm(30, 60)), Ok(2_000_000));
    assert_eq!(read_raydium_cpmm(&packed_amm(30, 60)), Ok(2_000_000));
    assert_eq!(read_pumpswap(&packed_amm(0, 60)), Err(OracleError::StaleSource));
    assert_eq!(read_pumpswap(&packed_amm(30, 60)[..0x17]), Err(OracleError::StaleSource));
}

#[test]
fn bin_prices() {
    assert_eq!(read_meteora_dlmm(&packed_meteora(0, 100, 123)), Ok(123));
    assert_eq!(read_meteora_dlmm(&packed_meteora(1, 10_000, 123)), Ok(246));
    assert_eq!(read_meteora_dlmm(&packed_meteora(-1, 10_000, 123)), Ok(61));
    assert_eq!(read_meteora_dlmm(&packed_meteora(-8, 10_000, 123)), Ok(0));
    assert_eq!(read_meteora_dlmm(&packed_meteora(i32::MIN, 10_000, 123)), Ok(0));
    assert_eq!(read_meteora_dlmm(&packed_meteora(1, 0, 123)), Err(OracleError::StaleSource));
    assert_eq!(read_meteora_dlmm(&packed_meteora(1, 10_001, 123)), Err(OracleError::StaleSource));
    assert_eq!(read_meteora_dlmm(&packed_meteora(1, 100, 0)), Err(OracleError::StaleSource));
    assert_eq!(read_meteora_dlmm(&packed_meteora(1, 10_000, u64::MAX)), Err(OracleError::Overflow));
    assert_eq!(read_meteora_dlmm(&packed_meteora(200, 10_000, 1)), Err(OracleError::Overflow));
}

#[test]
fn price_of_zero_is_stale() {
    let mut w = World::new();
    assert_eq!(
        w.init(key(1), &packed_meteora(-8, 10_000, 123), SourceKind::MeteoraDlmm),
        Err(OracleError::StaleSource)
    );
}

#[test]
fn medians() {
    let mut ring = [0u64; RING_LEN];
    assert_eq!(ring_median(&ring), None);
    ring[7] = 9;
    assert_eq!(ring_median(&ring), Some(9));
    ring[3] = 4;
    assert_eq!(ring_median(&ring), Some(4));
    ring[20] = 6;
    assert_eq!(ring_median(&ring), Some(6));
    assert_eq!(STALE_SLOTS, 150);
}

#[test]
fn the_order_of_the_ring_does_not_matter() {
    let prices = [70u64, 10, 40, 20, 60, 30];
    let mut a = [0u64; RING_LEN];
    let mut b = [0u64; RING_LEN];
    for (i, p) in prices.iter().enumerate() {
        a[i] = *p;
        b[RING_LEN - 1 - 4 * i] = *p;
    }
    let m = ring_median(&a).unwrap();
    // The lower one of the two in the middle: two below it, three up to it.
    assert_eq!(m, 30);
    assert_eq!(prices.iter().filter(|p| **p < m).count(), 2);
    assert_eq!(prices.iter().filter(|p| **p <= m).count(), 3);
    assert_eq!(ring_median(&b), Some(m));
}
