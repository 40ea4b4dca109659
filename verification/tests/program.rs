use percolator::address::{AccountView, Failure, Pubkey, SYSTEM_PROGRAM_ID, TOKEN_PROGRAM_ID};
use percolator::constants::ADL_ONE;
use percolator::int128::U128;
use percolator::oracle::state::{Feed, RING_LEN};
use percolator::program::checks::{
    validate_risk_params, MARKET_CREATION_FEE_LAMPORTS, MIN_MARKET_CREATION_FEE_LAMPORTS, TREASURY_PUBKEY,
};
use percolator::program::error::PercolatorError;
use percolator::program::instruction::{
    BootstrapLpArgs, CrankArgs, CrankKind, CreateMarketArgs, CreateSlabArgs, DepositArgs, InitializeEngineArgs,
    LiquidateArgs, PercolatorInstruction, PlaceOrderArgs, RiskParamsArgs, WithdrawArgs,
};
use percolator::program::operations::{CRANK_BOUNTY, LIQ_BOUNTY_BPS, PROTOCOL_LP_OWNER_SENTINEL, PROTOCOL_LP_SLOT};
use percolator::program::processor::Processor;
use percolator::program::state::{
    slab_account_size, try_find_vault_pda, SlabHeader, ENGINE_OFFSET, ORIGIN_OPEN, ORIGIN_SEEDED,
};
use percolator::types::{Account, RiskEngine, SideMode};
use solana_program::program_option::COption;
use solana_program::program_pack::Pack;
use spl_token::state::AccountState;

const TEST_MAX_ACCOUNTS: u64 = 64;
const ORACLE_PRICE: u64 = 1_000_000;

fn key(n: u8) -> Pubkey {
    let mut bytes = [n; 32];
    bytes[31] = 1;
    Pubkey::new_from_array(bytes)
}

fn valid_risk_params() -> RiskParamsArgs {
    RiskParamsArgs {
        maintenance_margin_bps: 500,
        initial_margin_bps: 1_000,
        trading_fee_bps: 0,
        max_accounts: TEST_MAX_ACCOUNTS,
        max_crank_staleness_slots: 1_000_000,
        liquidation_fee_bps: 100,
        liquidation_fee_cap: 1_000_000_000,
        min_liquidation_abs: 100,
        min_initial_deposit: 1_000,
        min_nonzero_mm_req: 100,
        min_nonzero_im_req: 200,
        insurance_floor: 0,
        h_min: 10,
        h_max: 1_000,
        resolve_price_deviation_bps: 500,
        max_accrual_dt_slots: 1_000_000,
        max_abs_funding_e9_per_slot: 100,
        min_funding_lifetime_slots: 1_000_000,
        max_active_positions_per_side: TEST_MAX_ACCOUNTS,
    }
}

fn packed_token_account(mint: Pubkey, owner: Pubkey, amount: u64) -> Vec<u8> {
    let mut data = vec![0u8; spl_token::state::Account::LEN];
    let ta = spl_token::state::Account {
        mint: solana_program::pubkey::Pubkey::new_from_array(mint.to_bytes()),
        owner: solana_program::pubkey::Pubkey::new_from_array(owner.to_bytes()),
        amount,
        delegate: COption::None,
        state: AccountState::Initialized,
        is_native: COption::None,
        delegated_amount: 0,
        close_authority: COption::None,
    };
    spl_token::state::Account::pack(ta, &mut data).unwrap();
    data
}

fn token_id() -> Pubkey {
    Pubkey::new_from_array(spl_token::id().to_bytes())
}

fn system_id() -> Pubkey {
    Pubkey::new_from_array(solana_program::system_program::id().to_bytes())
}

#[derive(Clone)]
struct Stored {
    owner: Pubkey,
    lamports: u64,
    data: Vec<u8>,
}

/// One market and everybody around it.
struct World {
    program: Pubkey,
    slab: Pubkey,
    mint: Pubkey,
    oracle: Pubkey,
    vault: Pubkey,
    vault_bump: u8,
    creator: Pubkey,
    creator_ta: Pubkey,
    user: Pubkey,
    user_ta: Pubkey,
    keeper: Pubkey,
    keeper_ta: Pubkey,
    accounts: Vec<(Pubkey, Stored)>,
    slot: u64,
}

impl World {
    fn new() -> World {
        let program = key(1);
        let slab = key(2);
        let (vault, vault_bump) = try_find_vault_pda(&slab, &program).unwrap();
        let mut w = World {
            program,
            slab,
            mint: key(3),
            oracle: key(4),
            vault,
            vault_bump,
            creator: key(5),
            creator_ta: key(6),
            user: key(7),
            user_ta: key(8),
            keeper: key(9),
            keeper_ta: key(10),
            accounts: vec![],
            slot: 1,
        };
        w.put(slab, program, vec![0u8; slab_account_size()]);
        w.put_tokens(w.creator_ta, w.creator, 1_000_000_000_000);
        w.put_tokens(w.user_ta, w.user, 1_000_000_000);
        w.put_tokens(w.keeper_ta, w.keeper, 0);
        w.put_tokens(vault, vault, 0);
        w.set_price(ORACLE_PRICE);
        w.put(Pubkey::new_from_array(TREASURY_PUBKEY), system_id(), vec![]);
        w
    }

    fn put(&mut self, k: Pubkey, owner: Pubkey, data: Vec<u8>) {
        self.accounts.retain(|(x, _)| *x != k);
        self.accounts.push((k, Stored { owner, lamports: 10_000_000, data }));
    }

    fn put_tokens(&mut self, k: Pubkey, authority: Pubkey, amount: u64) {
        let data = packed_token_account(self.mint, authority, amount);
        self.put(k, token_id(), data);
    }

    fn get(&self, k: Pubkey) -> Stored {
        match self.accounts.iter().find(|(x, _)| *x == k) {
            Some((_, s)) => s.clone(),
            None => Stored { owner: system_id(), lamports: 0, data: vec![] },
        }
    }

    /// An oracle account that holds nothing but its price.
    fn set_price(&mut self, price: u64) {
        self.put(self.oracle, system_id(), price.to_le_bytes().to_vec());
    }

    /// An oracle account that is a feed.
    fn set_feed(&mut self, price: u64, last_update_slot: u64, initialized: u8) {
        let feed = Feed {
            price_lamports_per_token: price,
            last_update_slot,
            mint: key(0),
            source: key(0),
            source_kind: 0,
            graduated: 0,
            initialized,
            ring_idx: 0,
            _pad: [0; 4],
            ring_buffer: [0; RING_LEN],
        };
        let mut data = vec![0u8; Feed::LEN];
        feed.write_into(&mut data).unwrap();
        self.put(self.oracle, system_id(), data);
    }

    fn tokens(&self, k: Pubkey) -> u64 {
        spl_token::state::Account::unpack(&self.get(k).data).unwrap().amount
    }

    fn add_tokens(&mut self, k: Pubkey, change: i128) {
        let s = self.get(k);
        let mut ta = spl_token::state::Account::unpack(&s.data).unwrap();
        ta.amount = (ta.amount as i128 + change) as u64;
        let mut data = s.data.clone();
        spl_token::state::Account::pack(ta, &mut data).unwrap();
        self.put(k, token_id(), data);
    }

    /// Run one instruction and carry out what comes of it.
    fn send(&mut self, ix: PercolatorInstruction, metas: &[(Pubkey, bool, bool)]) -> Result<(), PercolatorError> {
        let views: Vec<AccountView> = metas
            .iter()
            .map(|(k, signer, writable)| {
                let s = self.get(*k);
                AccountView {
                    key: *k,
                    owner: s.owner,
                    is_signer: *signer,
                    is_writable: *writable,
                    data: s.data,
                }
            })
            .collect();
        assert!(Processor::is_ready(&self.program, &views, &ix.pack()));
        let o = match Processor::process(&self.program, &views, &ix.pack(), self.slot, true) {
            Ok(o) => o,
            Err(Failure::Custom(e)) => return Err(e),
            Err(Failure::NotEnoughAccountKeys) => panic!("all accounts were given"),
        };
        let program = self.program;
        self.put(self.slab, program, o.slab_data);
        if let Some(t) = o.tokens {
            assert!(self.tokens(t.source) >= t.amount, "source covers the transfer");
            let authority = spl_token::state::Account::unpack(&self.get(t.source).data).unwrap().owner;
            assert_eq!(authority.to_bytes(), t.authority.to_bytes());
            if t.source == self.vault {
                assert_eq!(t.vault_bump, Some(self.vault_bump));
            } else {
                assert_eq!(t.vault_bump, None);
            }
            self.add_tokens(t.source, -(t.amount as i128));
            self.add_tokens(t.destination, t.amount as i128);
        }
        if let Some(t) = o.lamports {
            let mut s = self.get(t.destination);
            s.lamports += t.lamports;
            self.accounts.retain(|(x, _)| *x != t.destination);
            self.accounts.push((t.destination, s));
        }
        Ok(())
    }

    fn create_slab(&mut self, bump: u8) -> Result<(), PercolatorError> {
        let metas = [
            (self.creator, true, true),
            (self.slab, false, true),
            (self.mint, false, false),
            (self.oracle, false, false),
            (system_id(), false, false),
        ];
        let vault_bump = self.vault_bump;
        self.send(PercolatorInstruction::CreateSlab(CreateSlabArgs { bump, vault_bump }), &metas)
    }

    fn initialize(&mut self, signer: Pubkey, risk_params: RiskParamsArgs, init_oracle_price: u64) -> Result<(), PercolatorError> {
        let metas = [(self.slab, false, true), (signer, true, false)];
        self.send(
            PercolatorInstruction::InitializeEngine(InitializeEngineArgs { risk_params, init_oracle_price }),
            &metas,
        )
    }

    fn token_metas(&self, holder: Pubkey, holder_ta: Pubkey, vault: Pubkey, mint: Pubkey) -> [(Pubkey, bool, bool); 7] {
        [
            (self.slab, false, true),
            (holder, true, false),
            (holder_ta, false, true),
            (vault, false, true),
            (mint, false, false),
            (token_id(), false, false),
            (system_id(), false, false),
        ]
    }

    fn deposit(&mut self, amount: u64) -> Result<(), PercolatorError> {
        let metas = self.token_metas(self.user, self.user_ta, self.vault, self.mint);
        self.send(PercolatorInstruction::Deposit(DepositArgs { amount }), &metas)
    }

    fn bootstrap(&mut self, amount: u64) -> Result<(), PercolatorError> {
        let metas = self.token_metas(self.creator, self.creator_ta, self.vault, self.mint);
        self.send(PercolatorInstruction::BootstrapLp(BootstrapLpArgs { amount }), &metas)
    }

    fn order_at(&mut self, oracle: Pubkey, side: u8, size: u64, max_price: u64, min_price: u64) -> Result<(), PercolatorError> {
        let metas = [
            (self.slab, false, true),
            (self.user, true, false),
            (oracle, false, false),
            (key(50), false, false),
        ];
        self.send(
            PercolatorInstruction::PlaceOrder(PlaceOrderArgs { side, size, max_price, min_price }),
            &metas,
        )
    }

    fn order(&mut self, side: u8, size: u64) -> Result<(), PercolatorError> {
        let oracle = self.oracle;
        self.order_at(oracle, side, size, u64::MAX, 0)
    }

    fn liquidate_as(&mut self, keeper: Pubkey, keeper_ta: Pubkey, oracle: Pubkey, victim_slot: u16) -> Result<(), PercolatorError> {
        let metas = [
            (self.slab, false, true),
            (keeper, true, false),
            (keeper_ta, false, true),
            (oracle, false, false),
            (key(50), false, false),
            (self.vault, false, true),
            (token_id(), false, false),
        ];
        self.send(PercolatorInstruction::Liquidate(LiquidateArgs { victim_slot }), &metas)
    }

    fn liquidate(&mut self, victim_slot: u16) -> Result<(), PercolatorError> {
        let (k, ta, o) = (self.keeper, self.keeper_ta, self.oracle);
        self.liquidate_as(k, ta, o, victim_slot)
    }

    fn engine(&self) -> RiskEngine {
        RiskEngine::from_bytes(&self.get(self.slab).data[ENGINE_OFFSET..]).unwrap()
    }

    fn poke(&mut self, e: &RiskEngine) {
        let mut s = self.get(self.slab);
        s.data.truncate(ENGINE_OFFSET);
        s.data.extend_from_slice(&e.to_bytes());
        self.put(self.slab, s.owner, s.data);
    }

    fn user_idx(&self) -> u16 {
        self.engine().find_owner(&self.user.to_bytes()).expect("user slot")
    }

    /// A market with an LP and a user, each where the amount is not zero.
    fn live(lp: u64, user: u64) -> World {
        let mut w = World::new();
        w.create_slab(0).expect("create_slab");
        let creator = w.creator;
        w.initialize(creator, valid_risk_params(), ORACLE_PRICE).expect("initialize_engine");
        if lp > 0 {
            w.bootstrap(lp).expect("bootstrap_lp");
        }
        if user > 0 {
            w.deposit(user).expect("deposit");
        }
        w
    }
}

fn create_market(w: &mut World, treasury: Pubkey, fee_lamports: u64) -> Result<(), PercolatorError> {
    let metas = [
        (w.creator, true, true),
        (w.slab, false, true),
        (w.mint, false, false),
        (w.oracle, false, false),
        (treasury, false, true),
        (system_id(), false, false),
        (token_id(), false, false),
    ];
    let vault_bump = w.vault_bump;
    w.send(
        PercolatorInstruction::CreateMarket(CreateMarketArgs { vault_bump, fee_lamports }),
        &metas,
    )
}

fn withdraw(w: &mut World, amount: u64) -> Result<(), PercolatorError> {
    let metas = w.token_metas(w.user, w.user_ta, w.vault, w.mint);
    w.send(PercolatorInstruction::Withdraw(WithdrawArgs { amount }), &metas)
}

fn crank_kind(w: &mut World, kind: u8) -> Result<(), PercolatorError> {
    let metas = [
        (w.slab, false, true),
        (w.keeper, true, false),
        (key(50), false, false),
        (w.keeper_ta, false, true),
        (w.vault, false, true),
        (token_id(), false, false),
    ];
    w.send(PercolatorInstruction::Crank(CrankArgs { kind }), &metas)
}

fn crank(w: &mut World, kind: CrankKind) -> Result<(), PercolatorError> {
    crank_kind(w, kind as u8)
}

fn treasury() -> Pubkey {
    Pubkey::new_from_array(TREASURY_PUBKEY)
}

/// Add matured profit to the first account in use, and tokens to the vault.
fn poke_pnl(w: &mut World, pnl: u128, extra: u128) {
    let mut e = w.engine();
    let i = (0..64).find(|i| e.is_used(*i)).expect("an account");
    e.accounts[i].pnl = pnl as i128;
    e.pnl_pos_tot += pnl;
    e.pnl_matured_pos_tot += pnl;
    e.vault = U128::new(e.vault.get() + extra);
    w.poke(&e);
    w.add_tokens(w.vault, extra as i128);
}

fn fund_insurance(w: &mut World, amount: u128) {
    let mut e = w.engine();
    e.insurance_fund.balance = U128::new(e.insurance_fund.balance.get() + amount);
    e.vault = U128::new(e.vault.get() + amount);
    w.poke(&e);
    w.add_tokens(w.vault, amount as i128);
}

fn assert_conservation(e: &RiskEngine) {
    assert!(
        e.vault.get() >= e.c_tot.get() + e.insurance_fund.balance.get(),
        "V={} c_tot={} I={}",
        e.vault.get(),
        e.c_tot.get(),
        e.insurance_fund.balance.get()
    );
    assert!(e.check_conservation());
}

// ---------- creation ----------

#[test]
fn create_slab_happy_path() {
    let mut w = World::new();
    w.create_slab(200).expect("create_slab");
    let s = w.get(w.slab);
    assert_eq!(s.owner, w.program);
    assert_eq!(s.data.len(), slab_account_size());
    let header = SlabHeader::read_from(&s.data[..SlabHeader::LEN]).unwrap();
    assert_eq!(header.mint, w.mint);
    assert_eq!(header.oracle, w.oracle);
    assert_eq!(header.creator, w.creator);
    assert_eq!(header.bump, 200);
    assert_eq!(header.origin, ORIGIN_SEEDED);
    assert!(s.data[ENGINE_OFFSET..].iter().all(|&b| b == 0));
}

#[test]
fn create_slab_rejects_replay() {
    let mut w = World::new();
    w.create_slab(1).expect("first create");
    assert_eq!(w.create_slab(1), Err(PercolatorError::SlabAlreadyInitialized));
}

#[test]
fn happy_path_fee_routes_and_origin_open() {
    let mut w = World::new();
    let before = w.get(treasury()).lamports;
    create_market(&mut w, treasury(), MIN_MARKET_CREATION_FEE_LAMPORTS).expect("create_market");
    assert_eq!(w.get(treasury()).lamports - before, MIN_MARKET_CREATION_FEE_LAMPORTS);
    let header = SlabHeader::read_from(&w.get(w.slab).data[..SlabHeader::LEN]).unwrap();
    assert_eq!(header.mint, w.mint);
    assert_eq!(header.oracle, w.oracle);
    assert_eq!(header.creator, w.creator);
    assert_eq!(header.vault_bump, w.vault_bump);
    assert_eq!(header.origin, ORIGIN_OPEN);
}

#[test]
fn wrong_treasury_rejected() {
    let mut w = World::new();
    assert_eq!(
        create_market(&mut w, key(60), MIN_MARKET_CREATION_FEE_LAMPORTS),
        Err(PercolatorError::WrongTreasury)
    );
}

#[test]
fn unallocated_slab_rejected() {
    let mut w = World::new();
    w.put(w.slab, system_id(), vec![]);
    assert!(create_market(&mut w, treasury(), MIN_MARKET_CREATION_FEE_LAMPORTS).is_err());
}

#[test]
fn replay_rejected() {
    let mut w = World::new();
    create_market(&mut w, treasury(), MIN_MARKET_CREATION_FEE_LAMPORTS).expect("first");
    w.slot = 5;
    assert_eq!(
        create_market(&mut w, treasury(), MIN_MARKET_CREATION_FEE_LAMPORTS),
        Err(PercolatorError::SlabAlreadyInitialized)
    );
}

#[test]
fn above_floor_fee_accepted_and_routed() {
    let mut w = World::new();
    const FEE: u64 = 1_500_000_000;
    let before = w.get(treasury()).lamports;
    create_market(&mut w, treasury(), FEE).expect("create_market");
    assert_eq!(w.get(treasury()).lamports - before, FEE);
}

#[test]
fn below_floor_fee_rejected() {
    let mut w = World::new();
    assert_eq!(
        create_market(&mut w, treasury(), MIN_MARKET_CREATION_FEE_LAMPORTS - 1),
        Err(PercolatorError::ListingFeeTooLow)
    );
    assert_eq!(MARKET_CREATION_FEE_LAMPORTS, MIN_MARKET_CREATION_FEE_LAMPORTS);
}

#[test]
fn creation_checks_its_accounts() {
    let w = World::new();
    let view = |k: Pubkey, signer: bool, writable: bool| {
        let s = w.get(k);
        AccountView { key: k, owner: s.owner, is_signer: signer, is_writable: writable, data: s.data }
    };
    let good = || {
        vec![
            view(w.creator, true, true),
            view(w.slab, false, true),
            view(w.mint, false, false),
            view(w.oracle, false, false),
            view(system_id(), false, false),
        ]
    };
    let args = CreateSlabArgs { bump: 0, vault_bump: w.vault_bump };
    let run = |acc: &[AccountView], rent: bool| match Processor::process_create_slab(&w.program, acc, args, rent) {
        Ok(_) => None,
        Err(e) => Some(e),
    };
    assert_eq!(run(&good(), true), None);
    assert_eq!(run(&good()[..4], true), Some(Failure::NotEnoughAccountKeys));
    assert_eq!(run(&good(), false), Some(Failure::Custom(PercolatorError::SlabSizeMismatch)));
    let mut acc = good();
    acc[0].is_signer = false;
    assert_eq!(run(&acc, true), Some(Failure::Custom(PercolatorError::MissingSigner)));
    let mut acc = good();
    acc[1].is_writable = false;
    assert_eq!(run(&acc, true), Some(Failure::Custom(PercolatorError::AccountNotWritable)));
    let mut acc = good();
    acc[4].key = key(70);
    assert_eq!(run(&acc, true), Some(Failure::Custom(PercolatorError::InvalidSystemProgram)));
    let mut acc = good();
    acc[1].data.pop();
    assert_eq!(run(&acc, true), Some(Failure::Custom(PercolatorError::SlabSizeMismatch)));
    let mut acc = good();
    acc[1].owner = key(71);
    assert_eq!(run(&acc, true), Some(Failure::Custom(PercolatorError::SlabAlreadyInitialized)));
}

#[test]
fn vault_bumps_are_checked_against_the_derivation() {
    let w = World::new();
    let program = solana_program::pubkey::Pubkey::new_from_array(w.program.to_bytes());
    let slab = w.slab.to_bytes();
    let mut refused = 0;
    for bump in 0..=255u8 {
        let views: Vec<AccountView> = [w.creator, w.slab, w.mint, w.oracle, system_id()]
            .iter()
            .map(|k| {
                let s = w.get(*k);
                AccountView { key: *k, owner: s.owner, is_signer: true, is_writable: true, data: s.data }
            })
            .collect();
        if bump < 250 {
            continue;
        }
        let derived = solana_program::pubkey::Pubkey::create_program_address(
            &[b"vault", &slab, &[bump]],
            &program,
        );
        let r = Processor::process_create_slab(
            &w.program,
            &views,
            CreateSlabArgs { bump: 0, vault_bump: bump },
            true,
        );
        match derived {
            Ok(_) => assert!(r.is_ok()),
            Err(_) => {
                refused += 1;
                assert_eq!(r.err(), Some(Failure::Custom(PercolatorError::VaultPdaMismatch)));
            }
        }
    }
    println!("{} bumps refused", refused);
}

#[test]
fn vault_is_the_one_that_the_runtime_finds() {
    for n in 0..20u8 {
        let slab = key(100 + n);
        let program = key(1);
        let (want, bump) = solana_program::pubkey::Pubkey::find_program_address(
            &[b"vault", &slab.to_bytes()],
            &solana_program::pubkey::Pubkey::new_from_array(program.to_bytes()),
        );
        let (got, got_bump) = try_find_vault_pda(&slab, &program).unwrap();
        assert_eq!(got.to_bytes(), want.to_bytes());
        assert_eq!(got_bump, bump);
    }
}

#[test]
fn well_known_addresses() {
    assert_eq!(TOKEN_PROGRAM_ID, spl_token::id().to_bytes());
    assert_eq!(SYSTEM_PROGRAM_ID, solana_program::system_program::id().to_bytes());
    let treasury: solana_program::pubkey::Pubkey =
        "EM7mXeCaUvj4yJ6zmEtgDfrUUSiK2vuyiwvijNpayktn".parse().unwrap();
    assert_eq!(TREASURY_PUBKEY, treasury.to_bytes());
}

// ---------- initialization ----------

fn sample_params() -> RiskParamsArgs {
    let mut p = valid_risk_params();
    p.trading_fee_bps = 10;
    p.min_initial_deposit = 1_000_000_000;
    p.max_accrual_dt_slots = 1_000;
    p.min_funding_lifetime_slots = 1_000;
    p
}

#[test]
fn happy_path() {
    let mut w = World::new();
    w.create_slab(0).expect("create_slab");
    let creator = w.creator;
    w.initialize(creator, sample_params(), 1_000_000).expect("initialize_engine");
    let data = w.get(w.slab).data;
    let header = SlabHeader::read_from(&data[..SlabHeader::LEN]).unwrap();
    assert!(header.is_initialized());
    assert_eq!(header.mint, w.mint);
    assert_eq!(header.creator, w.creator);
    assert!(data[ENGINE_OFFSET..].iter().any(|&b| b != 0));
    let e = w.engine();
    assert_eq!(e.last_oracle_price, 1_000_000);
    assert_eq!(e.adl_mult_long, ADL_ONE);
    assert_eq!(e.free_head, 0);
}

#[test]
fn double_init_rejected() {
    let mut w = World::new();
    w.create_slab(0).expect("create_slab");
    let creator = w.creator;
    w.initialize(creator, sample_params(), 42).expect("first init");
    w.slot = 2;
    assert_eq!(w.initialize(creator, sample_params(), 42), Err(PercolatorError::AlreadyInitialized));
}

#[test]
fn wrong_signer_rejected() {
    let mut w = World::new();
    w.create_slab(0).expect("create_slab");
    assert_eq!(w.initialize(key(80), sample_params(), 1), Err(PercolatorError::WrongSigner));
}

#[test]
fn uninitialized_slab_rejected() {
    let mut w = World::new();
    let creator = w.creator;
    assert_eq!(w.initialize(creator, sample_params(), 1_000), Err(PercolatorError::SlabNotInitialized));
}

#[test]
fn invalid_risk_params_rejected_zero_leverage() {
    let mut w = World::new();
    w.create_slab(0).expect("create_slab");
    let mut bad = sample_params();
    bad.initial_margin_bps = 0;
    bad.maintenance_margin_bps = 0;
    let creator = w.creator;
    assert_eq!(w.initialize(creator, bad, 1_000), Err(PercolatorError::InvalidRiskParams));
}

#[test]
fn invalid_risk_params_rejected_zero_funding_cap() {
    let mut w = World::new();
    w.create_slab(0).expect("create_slab");
    let mut bad = sample_params();
    bad.max_accrual_dt_slots = 0;
    let creator = w.creator;
    assert_eq!(w.initialize(creator, bad, 1_000), Err(PercolatorError::InvalidRiskParams));
}

#[test]
fn risk_params_are_validated_one_by_one() {
    let good = sample_params();
    assert_eq!(validate_risk_params(&good, 1), Ok(()));
    assert_eq!(validate_risk_params(&good, 1_000_000_000_000), Ok(()));
    let refused = |p: RiskParamsArgs, px: u64| {
        assert_eq!(validate_risk_params(&p, px), Err(PercolatorError::InvalidRiskParams));
    };
    refused(good, 0);
    refused(good, 1_000_000_000_001);
    refused(RiskParamsArgs { max_accounts: 0, ..good }, 1);
    refused(RiskParamsArgs { max_accounts: 4097, ..good }, 1);
    refused(RiskParamsArgs { max_active_positions_per_side: 0, ..good }, 1);
    refused(RiskParamsArgs { max_active_positions_per_side: 65, ..good }, 1);
    refused(RiskParamsArgs { maintenance_margin_bps: 1_001, ..good }, 1);
    refused(RiskParamsArgs { initial_margin_bps: 10_001, ..good }, 1);
    refused(RiskParamsArgs { trading_fee_bps: 10_001, ..good }, 1);
    refused(RiskParamsArgs { liquidation_fee_bps: 10_001, ..good }, 1);
    refused(RiskParamsArgs { min_nonzero_mm_req: 0, ..good }, 1);
    refused(RiskParamsArgs { min_nonzero_mm_req: 200, ..good }, 1);
    refused(RiskParamsArgs { min_nonzero_im_req: 1_000_000_001, ..good }, 1);
    refused(RiskParamsArgs { min_initial_deposit: 10_000_000_000_000_001, ..good }, 1);
    refused(RiskParamsArgs { min_liquidation_abs: 1_000_000_001, ..good }, 1);
    refused(RiskParamsArgs { insurance_floor: 10_000_000_000_000_001, ..good }, 1);
    refused(RiskParamsArgs { h_min: 1_001, ..good }, 1);
    refused(RiskParamsArgs { h_min: 0, h_max: 0, ..good }, 1);
    refused(RiskParamsArgs { resolve_price_deviation_bps: 10_001, ..good }, 1);
    refused(RiskParamsArgs { max_abs_funding_e9_per_slot: 1_000_000_001, ..good }, 1);
    refused(RiskParamsArgs { min_funding_lifetime_slots: 999, ..good }, 1);
    refused(RiskParamsArgs { min_funding_lifetime_slots: u64::MAX, ..good }, 1);
}

// ---------- deposits ----------

#[test]
fn fresh_deposit() {
    let mut w = World::live(0, 0);
    let amount = 5_000u64;
    w.deposit(amount).expect("deposit");
    let e = w.engine();
    assert_eq!(e.num_used_accounts, 1);
    assert_eq!(e.c_tot.get(), amount as u128);
    assert_eq!(e.vault.get(), amount as u128);
    let holder = (0..64).find(|i| e.accounts[*i].capital.get() != 0).expect("one account holds capital");
    assert_eq!(e.accounts[holder].capital.get(), amount as u128);
    assert_eq!(e.accounts[holder].owner, w.user.to_bytes());
    assert_eq!(w.tokens(w.vault), amount);
}

#[test]
fn repeat_deposit() {
    let mut w = World::live(0, 0);
    for &amount in &[2_000u64, 3_000, 500] {
        w.deposit(amount).expect("deposit");
        w.slot += 1;
    }
    let e = w.engine();
    let total = 2_000u128 + 3_000 + 500;
    assert_eq!(e.num_used_accounts, 1);
    assert_eq!(e.c_tot.get(), total);
    assert_eq!(e.vault.get(), total);
    assert_eq!(w.tokens(w.vault), total as u64);
}

#[test]
fn deposit_zero_amount_rejected() {
    let mut w = World::live(0, 0);
    assert_eq!(w.deposit(0), Err(PercolatorError::ZeroAmount));
}

#[test]
fn wrong_mint_rejected() {
    let mut w = World::live(0, 0);
    let metas = w.token_metas(w.user, w.user_ta, w.vault, key(90));
    assert_eq!(
        w.send(PercolatorInstruction::Deposit(DepositArgs { amount: 1_000 }), &metas),
        Err(PercolatorError::WrongMint)
    );
}

#[test]
fn slab_full_rejected() {
    let mut w = World::live(0, 5_000);
    let mut e = w.engine();
    e.free_head = u16::MAX;
    w.poke(&e);
    let (fresh, fresh_ta) = (key(91), key(92));
    w.put_tokens(fresh_ta, fresh, 10_000);
    let metas = w.token_metas(fresh, fresh_ta, w.vault, w.mint);
    assert_eq!(
        w.send(PercolatorInstruction::Deposit(DepositArgs { amount: 5_000 }), &metas),
        Err(PercolatorError::SlabFull)
    );
}

#[test]
fn deposit_vault_pda_mismatch_rejected() {
    let mut w = World::live(0, 0);
    let other = key(93);
    w.put_tokens(other, key(94), 0);
    let metas = w.token_metas(w.user, w.user_ta, other, w.mint);
    assert_eq!(
        w.send(PercolatorInstruction::Deposit(DepositArgs { amount: 1_000 }), &metas),
        Err(PercolatorError::VaultPdaMismatch)
    );
}

#[test]
fn uninitialized_engine_rejected() {
    let mut w = World::new();
    w.create_slab(0).expect("create_slab");
    assert_eq!(w.deposit(1_000), Err(PercolatorError::SlabNotInitialized));
}

#[test]
fn user_token_account_wrong_owner_rejected() {
    let mut w = World::live(0, 0);
    w.put_tokens(w.user_ta, key(95), 1_000_000);
    assert_eq!(w.deposit(1_000), Err(PercolatorError::TokenAccountWrongOwner));
}

#[test]
fn token_accounts_are_checked() {
    let mut w = World::live(0, 0);
    let good = w.token_metas(w.user, w.user_ta, w.vault, w.mint);
    let ix = || PercolatorInstruction::Deposit(DepositArgs { amount: 1_000 });
    let mut metas = good;
    metas[1].1 = false;
    assert_eq!(w.send(ix(), &metas), Err(PercolatorError::MissingSigner));
    let mut metas = good;
    metas[2].2 = false;
    assert_eq!(w.send(ix(), &metas), Err(PercolatorError::AccountNotWritable));
    let mut metas = good;
    metas[5].0 = key(96);
    assert_eq!(w.send(ix(), &metas), Err(PercolatorError::InvalidTokenProgram));
    // Not a token account at all, and one of another mint.
    let keep = w.get(w.user_ta);
    w.put(w.user_ta, token_id(), vec![0u8; 165]);
    assert_eq!(w.deposit(1_000), Err(PercolatorError::TokenAccountWrongOwner));
    w.put(w.user_ta, token_id(), packed_token_account(key(97), w.user, 5));
    assert_eq!(w.deposit(1_000), Err(PercolatorError::TokenAccountWrongMint));
    w.put(w.user_ta, key(98), keep.data.clone());
    assert_eq!(w.deposit(1_000), Err(PercolatorError::TokenAccountWrongOwner));
    w.put(w.user_ta, keep.owner, keep.data);
    assert_eq!(w.deposit(1_000), Ok(()));
    // A frozen account is still an account.
    let mut frozen = w.get(w.user_ta);
    frozen.data[108] = 2;
    w.put(w.user_ta, frozen.owner, frozen.data);
    assert_eq!(w.deposit(1_000), Ok(()));
}

#[test]
fn slabs_of_others_are_refused() {
    let mut w = World::live(0, 0);
    let s = w.get(w.slab);
    w.put(w.slab, key(99), s.data.clone());
    assert_eq!(w.deposit(1_000), Err(PercolatorError::SlabNotInitialized));
    let mut short = s.data.clone();
    short.pop();
    w.put(w.slab, w.program, short);
    assert_eq!(w.deposit(1_000), Err(PercolatorError::SlabSizeMismatch));
}

#[test]
fn slabs_without_an_engine_are_not_ready() {
    let w = World::live(0, 0);
    let s = w.get(w.slab);
    let view = |data: Vec<u8>| AccountView {
        key: w.slab,
        owner: s.owner,
        is_signer: false,
        is_writable: true,
        data,
    };
    let deposit = PercolatorInstruction::Deposit(DepositArgs { amount: 1 }).pack();
    assert!(Processor::is_ready(&w.program, &[view(s.data.clone())], &deposit));
    // A header that claims an engine where there is none.
    let mut bent = s.data.clone();
    for b in &mut bent[ENGINE_OFFSET..] {
        *b = 0;
    }
    assert!(!Processor::is_ready(&w.program, &[view(bent.clone())], &deposit));
    // Nothing is asked of a slab that is not the program's, or not marked as set up.
    assert!(Processor::is_ready(&key(99), &[view(bent.clone())], &deposit));
    let mut header = SlabHeader::read_from(&bent[..SlabHeader::LEN]).unwrap();
    header.initialized = 0;
    header.write_into(&mut bent[..SlabHeader::LEN]).unwrap();
    assert!(Processor::is_ready(&w.program, &[view(bent)], &deposit));
    assert!(Processor::is_ready(&w.program, &[], &deposit));
    assert!(Processor::is_ready(&w.program, &[], &[250]));
}

#[test]
fn too_small_first_deposit_is_an_engine_error() {
    let mut w = World::live(0, 0);
    assert_eq!(w.deposit(999), Err(PercolatorError::EngineError));
    assert_eq!(w.deposit(1_000), Ok(()));
    assert_eq!(w.deposit(1), Ok(()));
}

// ---------- withdrawals ----------

#[test]
fn flat_account_full_withdraw() {
    let mut w = World::live(0, 1_000);
    let had = w.tokens(w.user_ta);
    withdraw(&mut w, 1_000).expect("withdraw");
    let e = w.engine();
    assert_eq!(e.c_tot.get(), 0);
    assert_eq!(e.vault.get(), 0);
    assert_eq!(e.accounts[w.user_idx() as usize].capital.get(), 0);
    assert_eq!(w.tokens(w.vault), 0);
    assert_eq!(w.tokens(w.user_ta), had + 1_000);
}

#[test]
fn partial_withdraw_leaves_valid_state() {
    let mut w = World::live(0, 10_000);
    let had = w.tokens(w.user_ta);
    withdraw(&mut w, 4_000).expect("w1");
    let e = w.engine();
    assert_eq!(e.c_tot.get(), 6_000);
    assert_eq!(e.vault.get(), 6_000);
    assert_eq!(e.accounts[w.user_idx() as usize].capital.get(), 6_000);
    assert_eq!(e.num_used_accounts, 1);
    assert_eq!(w.tokens(w.vault), 6_000);
    assert_eq!(w.tokens(w.user_ta), had + 4_000);
}

#[test]
fn over_withdraw_rejected() {
    let mut w = World::live(0, 5_000);
    assert_eq!(withdraw(&mut w, 5_001), Err(PercolatorError::EngineError));
}

#[test]
fn withdraw_zero_amount_rejected() {
    let mut w = World::live(0, 5_000);
    assert_eq!(withdraw(&mut w, 0), Err(PercolatorError::ZeroAmount));
}

#[test]
fn withdraw_without_deposit_rejected() {
    let mut w = World::live(0, 0);
    assert_eq!(withdraw(&mut w, 1_000), Err(PercolatorError::EngineError));
}

#[test]
fn withdraw_vault_pda_mismatch_rejected() {
    let mut w = World::live(0, 5_000);
    let other = key(93);
    w.put_tokens(other, key(94), 0);
    let metas = w.token_metas(w.user, w.user_ta, other, w.mint);
    assert_eq!(
        w.send(PercolatorInstruction::Withdraw(WithdrawArgs { amount: 1_000 }), &metas),
        Err(PercolatorError::VaultPdaMismatch)
    );
    // The right address, but not its own authority.
    w.put_tokens(w.vault, key(94), 5_000);
    assert_eq!(withdraw(&mut w, 1_000), Err(PercolatorError::VaultPdaMismatch));
}

#[test]
fn profit_withdraw_with_h_equals_1() {
    let mut w = World::live(0, 10_000);
    poke_pnl(&mut w, 4_000, 4_000);
    withdraw(&mut w, 14_000).expect("withdraw deposit+profit");
    let e = w.engine();
    assert_eq!(e.c_tot.get(), 0);
    assert_eq!(e.vault.get(), 0);
    assert_eq!(e.pnl_matured_pos_tot, 0);
    assert_eq!(e.accounts[w.user_idx() as usize].pnl, 0);
    assert_eq!(w.tokens(w.vault), 0);
}

#[test]
fn profit_withdraw_with_h_below_1() {
    let mut w = World::live(0, 10_000);
    poke_pnl(&mut w, 4_000, 1_000);
    assert_eq!(withdraw(&mut w, 14_000), Err(PercolatorError::EngineError));
    withdraw(&mut w, 10_000).expect("capital-only withdraw OK at h<1");
    let e = w.engine();
    assert_eq!(e.c_tot.get(), 0);
    assert_eq!(e.accounts[w.user_idx() as usize].pnl, 4_000);
    assert_eq!(e.pnl_matured_pos_tot, 4_000);
}

#[test]
fn capital_is_senior_at_h_zero() {
    let mut w = World::live(0, 10_000);
    poke_pnl(&mut w, 4_000, 0);
    withdraw(&mut w, 10_000).expect("capital withdraw must succeed at h=0");
    let e = w.engine();
    assert_eq!(e.c_tot.get(), 0);
    assert_eq!(e.accounts[w.user_idx() as usize].pnl, 4_000);
}

#[test]
fn warmup_not_passed_rejected() {
    let mut w = World::live(0, 10_000);
    let mut e = w.engine();
    let i = w.user_idx() as usize;
    e.accounts[i].pnl = 4_000;
    e.accounts[i].reserved_pnl = 4_000;
    e.pnl_pos_tot += 4_000;
    e.vault = U128::new(e.vault.get() + 4_000);
    w.poke(&e);
    assert_eq!(withdraw(&mut w, 14_000), Err(PercolatorError::EngineError));
}

#[test]
fn settle_lazy_before_check() {
    let mut w = World::live(0, 10_000);
    w.slot = 100;
    withdraw(&mut w, 10_000).expect("withdraw after slot advance triggers settle");
    assert!(w.engine().current_slot >= 100);
}

// ---------- the LP ----------

#[test]
fn bootstrap_marks_the_lp_and_runs_once() {
    let mut w = World::live(1_000_000, 0);
    let e = w.engine();
    let lp = PROTOCOL_LP_SLOT as usize;
    assert!(e.is_used(lp));
    assert_eq!(e.accounts[lp].owner, PROTOCOL_LP_OWNER_SENTINEL);
    assert_eq!(e.accounts[lp].kind, Account::KIND_LP);
    assert!(e.accounts[lp].is_lp() && !e.accounts[lp].is_user());
    assert_eq!(e.accounts[lp].capital.get(), 1_000_000);
    assert_eq!(w.tokens(w.vault), 1_000_000);
    assert_eq!(w.bootstrap(1_000), Err(PercolatorError::LpAlreadyBootstrapped));
    assert_eq!(w.bootstrap(0), Err(PercolatorError::ZeroAmount));
}

#[test]
fn bootstrap_must_come_before_deposits() {
    let mut w = World::live(0, 5_000);
    assert_eq!(w.bootstrap(1_000), Err(PercolatorError::LpAlreadyBootstrapped));
}

#[test]
fn bootstrap_is_for_the_creator() {
    let mut w = World::live(0, 0);
    let metas = w.token_metas(w.user, w.user_ta, w.vault, w.mint);
    assert_eq!(
        w.send(PercolatorInstruction::BootstrapLp(BootstrapLpArgs { amount: 1_000 }), &metas),
        Err(PercolatorError::WrongSigner)
    );
}

#[test]
fn deposits_leave_the_lp_alone() {
    let mut w = World::live(1_000_000, 5_000);
    let e = w.engine();
    assert_ne!(w.user_idx(), PROTOCOL_LP_SLOT);
    assert_eq!(e.accounts[0].capital.get(), 1_000_000);
    w.deposit(77).expect("again");
    assert_eq!(w.engine().accounts[0].capital.get(), 1_000_000);
}

// ---------- orders ----------

#[test]
fn open_long_ok() {
    let mut w = World::live(1_000_000, 100_000);
    w.set_feed(ORACLE_PRICE, 0, 1);
    let u = w.user_idx() as usize;
    let before = w.engine();
    assert_eq!(before.effective_pos_q(u), 0);
    assert_eq!(before.oi_eff_long_q, 0);
    let size = 1_000_000u64;
    w.order(0, size).expect("open long");
    let after = w.engine();
    assert!(after.effective_pos_q(u) > 0);
    assert_eq!(after.accounts[u].position_basis_q.unsigned_abs(), size as u128);
    assert_eq!(after.oi_eff_long_q, size as u128);
    assert_eq!(after.oi_eff_short_q, size as u128);
    assert_eq!(after.adl_mult_long, ADL_ONE);
}

#[test]
fn open_short_ok() {
    let mut w = World::live(1_000_000, 100_000);
    w.set_feed(ORACLE_PRICE, 0, 1);
    let u = w.user_idx() as usize;
    let size = 1_000_000u64;
    w.order(1, size).expect("open short");
    let after = w.engine();
    assert!(after.effective_pos_q(u) < 0);
    assert_eq!(after.accounts[u].position_basis_q.unsigned_abs(), size as u128);
    assert_eq!(after.oi_eff_short_q, size as u128);
    assert_eq!(after.oi_eff_long_q, size as u128);
    assert_eq!(after.adl_mult_short, ADL_ONE);
}

#[test]
fn close_long_at_profit() {
    let mut w = World::live(10_000_000, 1_000_000);
    w.set_feed(ORACLE_PRICE, 0, 1);
    let u = w.user_idx() as usize;
    let size = 1_000_000u64;
    w.order(0, size).expect("open long");
    w.set_feed(ORACLE_PRICE + ORACLE_PRICE / 2, 0, 1);
    w.slot = 10;
    w.order(1, size).expect("close long");
    let after = w.engine();
    assert_eq!(after.effective_pos_q(u), 0);
    assert_eq!(after.oi_eff_long_q, 0);
    assert_eq!(after.oi_eff_short_q, 0);
}

#[test]
fn close_short_at_loss() {
    let mut w = World::live(10_000_000, 5_000_000);
    w.set_feed(ORACLE_PRICE, 0, 1);
    let u = w.user_idx() as usize;
    let size = 1_000_000u64;
    w.order(1, size).expect("open short");
    w.set_feed(ORACLE_PRICE + ORACLE_PRICE / 10, 0, 1);
    w.slot = 10;
    w.order(0, size).expect("close short at loss");
    let after = w.engine();
    assert_eq!(after.effective_pos_q(u), 0);
    assert_eq!(after.oi_eff_long_q, 0);
    assert_eq!(after.oi_eff_short_q, 0);
    // A tenth of one token's worth was lost.
    assert_eq!(after.accounts[u].capital.get(), 4_900_000);
}

#[test]
fn zero_size_rejected() {
    let mut w = World::live(1_000_000, 100_000);
    assert_eq!(w.order(0, 0), Err(PercolatorError::ZeroSize));
}

#[test]
fn unknown_side_rejected() {
    let mut w = World::live(1_000_000, 100_000);
    assert_eq!(w.order(2, 1), Err(PercolatorError::InvalidSide));
}

#[test]
fn place_order_stale_oracle_rejected() {
    let mut w = World::live(1_000_000, 100_000);
    w.set_feed(0, 0, 1);
    assert_eq!(w.order(0, 1_000_000), Err(PercolatorError::StaleOracle));
}

#[test]
fn stale_oracle_by_slot_rejected() {
    let mut w = World::live(1_000_000, 100_000);
    w.set_feed(ORACLE_PRICE, 0, 1);
    w.slot = 200;
    assert_eq!(w.order(0, 1_000_000), Err(PercolatorError::StaleOracle));
    w.slot = 151;
    assert_eq!(w.order(0, 1_000_000), Err(PercolatorError::StaleOracle));
    w.slot = 150;
    assert_eq!(w.order(0, 1_000_000), Ok(()));
}

#[test]
fn uninitialized_oracle_rejected() {
    let mut w = World::live(1_000_000, 100_000);
    w.set_feed(ORACLE_PRICE, 0, 0);
    assert_eq!(w.order(0, 1_000_000), Err(PercolatorError::StaleOracle));
}

#[test]
fn oracle_without_a_price_rejected() {
    let mut w = World::live(1_000_000, 100_000);
    w.put(w.oracle, system_id(), vec![1u8; 7]);
    assert_eq!(w.order(0, 1_000_000), Err(PercolatorError::StaleOracle));
    w.set_price(1_000_000_000_001);
    assert_eq!(w.order(0, 1_000_000), Err(PercolatorError::StaleOracle));
}

#[test]
fn price_slippage_rejected() {
    let mut w = World::live(1_000_000, 100_000);
    w.set_feed(ORACLE_PRICE, 0, 1);
    let oracle = w.oracle;
    assert_eq!(
        w.order_at(oracle, 0, 1_000_000, ORACLE_PRICE - 1, 0),
        Err(PercolatorError::SlippageExceeded)
    );
    assert_eq!(
        w.order_at(oracle, 0, 1_000_000, u64::MAX, ORACLE_PRICE + 1),
        Err(PercolatorError::SlippageExceeded)
    );
    assert_eq!(w.order_at(oracle, 0, 1_000_000, 1, 2), Err(PercolatorError::SlippageExceeded));
}

#[test]
fn insufficient_margin_rejected() {
    let mut w = World::live(10_000_000, 1_000);
    assert_eq!(w.order(0, 1_000_000), Err(PercolatorError::EngineError));
}

#[test]
fn over_leverage_rejected() {
    let mut w = World::live(100_000_000, 100_000);
    assert_eq!(w.order(0, 50_000_000), Err(PercolatorError::EngineError));
}

#[test]
fn drain_only_blocks_open() {
    let mut w = World::live(1_000_000, 100_000);
    let mut e = w.engine();
    e.side_mode_long = SideMode::DrainOnly;
    w.poke(&e);
    assert_eq!(w.order(0, 1_000_000), Err(PercolatorError::DrainOnly));
}

#[test]
fn drain_only_allows_close() {
    let mut w = World::live(10_000_000, 1_000_000);
    let u = w.user_idx() as usize;
    w.order(0, 1_000_000).expect("open long");
    let mut e = w.engine();
    e.side_mode_long = SideMode::DrainOnly;
    w.poke(&e);
    w.slot = 10;
    w.order(1, 1_000_000).expect("close allowed under DrainOnly");
    assert_eq!(w.engine().effective_pos_q(u), 0);
}

#[test]
fn reset_pending_blocks_new_but_allows_settle() {
    let mut w = World::live(1_000_000, 100_000);
    let mut e = w.engine();
    e.side_mode_long = SideMode::ResetPending;
    w.poke(&e);
    assert_eq!(w.order(0, 1_000_000), Err(PercolatorError::DrainOnly));
}

#[test]
fn lp_not_bootstrapped_rejected() {
    let mut w = World::live(0, 100_000);
    assert_eq!(w.order(0, 1_000_000), Err(PercolatorError::LpNotBootstrapped));
}

#[test]
fn order_without_deposit_rejected() {
    let mut w = World::live(1_000_000, 0);
    assert_eq!(w.order(0, 1_000_000), Err(PercolatorError::EngineError));
}

#[test]
fn wrong_oracle_account_rejected() {
    let mut w = World::live(1_000_000, 100_000);
    let bogus = key(61);
    w.put(bogus, system_id(), ORACLE_PRICE.to_le_bytes().to_vec());
    assert_eq!(w.order_at(bogus, 0, 1_000_000, u64::MAX, 0), Err(PercolatorError::StaleOracle));
}

// ---------- liquidations ----------

#[test]
fn healthy_account_cannot_be_liquidated() {
    let mut w = World::live(100_000_000, 1_000_000);
    w.order(0, 500_000).expect("open long");
    let u = w.user_idx();
    assert_eq!(w.liquidate(u), Err(PercolatorError::AccountHealthy));
}

#[test]
fn underwater_long_liquidated_socializes_to_shorts() {
    let mut w = World::live(1_000_000_000, 1_000_000);
    let u = w.user_idx();
    w.order(0, 9_000_000).expect("open long");
    let before = w.engine();
    assert_conservation(&before);
    assert!(before.accounts[u as usize].position_basis_q > 0);
    w.set_price(ORACLE_PRICE / 5);
    w.slot = 10;
    w.liquidate(u).expect("liquidate underwater long");
    let after = w.engine();
    assert_conservation(&after);
    assert_eq!(after.accounts[u as usize].position_basis_q, 0);
    assert!(
        after.adl_coeff_short != before.adl_coeff_short
            || after.adl_mult_short != before.adl_mult_short
            || after.side_mode_short != before.side_mode_short
            || after.insurance_fund != before.insurance_fund,
        "expected some socialization signal on short side"
    );
}

#[test]
fn underwater_short_liquidated_socializes_to_longs() {
    let mut w = World::live(1_000_000_000, 1_000_000);
    let u = w.user_idx();
    w.order(1, 9_000_000).expect("open short");
    let before = w.engine();
    assert!(before.accounts[u as usize].position_basis_q < 0);
    w.set_price(ORACLE_PRICE * 5);
    w.slot = 10;
    w.liquidate(u).expect("liquidate underwater short");
    let after = w.engine();
    assert_conservation(&after);
    assert_eq!(after.accounts[u as usize].position_basis_q, 0);
    assert!(
        after.adl_coeff_long != before.adl_coeff_long
            || after.adl_mult_long != before.adl_mult_long
            || after.side_mode_long != before.side_mode_long
            || after.insurance_fund != before.insurance_fund,
        "expected socialization on long side"
    );
}

#[test]
fn liquidator_bounty_paid() {
    let mut w = World::live(1_000_000_000, 1_000_000);
    let u = w.user_idx();
    w.order(0, 9_000_000).expect("open long");
    let had = w.tokens(w.keeper_ta);
    w.set_price(ORACLE_PRICE - ORACLE_PRICE / 10);
    w.slot = 10;
    w.liquidate(u).expect("liquidate");
    assert!(w.tokens(w.keeper_ta) >= had, "liquidator balance never decreases on liq");
    assert_conservation(&w.engine());
}

#[test]
fn bounty_is_half_a_percent_of_the_capital_before() {
    let mut w = World::live(1_000_000_000, 1_000_000);
    let u = w.user_idx();
    w.order(0, 9_000_000).expect("open long");
    // A loss of 630_000 leaves 370_000, less than five percent of 8_370_000.
    w.set_price(930_000);
    w.slot = 10;
    w.liquidate(u).expect("liquidate");
    let e = w.engine();
    let fee = 83_700;
    let bounty = 1_000_000 * LIQ_BOUNTY_BPS / 10_000;
    assert_eq!(bounty, 5_000);
    assert_eq!(w.tokens(w.keeper_ta) as u128, bounty);
    assert_eq!(e.insurance_fund.balance.get(), fee);
    assert_eq!(e.accounts[u as usize].capital.get(), 1_000_000 - 630_000 - fee - bounty);
    assert_eq!(e.vault.get(), 1_001_000_000 - bounty);
    assert_eq!(w.tokens(w.vault) as u128, e.vault.get());
}

#[test]
fn bankrupt_account_with_zero_capital_still_clears_position() {
    let mut w = World::live(1_000_000_000, 1_000_000);
    let u = w.user_idx();
    w.order(0, 9_000_000).expect("open long");
    let mut e = w.engine();
    let cap = e.accounts[u as usize].capital.get();
    e.accounts[u as usize].capital = U128::new(0);
    e.c_tot = U128::new(e.c_tot.get() - cap);
    e.vault = U128::new(e.vault.get() - cap);
    w.poke(&e);
    w.set_price(ORACLE_PRICE / 5);
    w.slot = 10;
    w.liquidate(u).expect("liquidate zero-capital bankrupt");
    let after = w.engine();
    assert_eq!(after.accounts[u as usize].position_basis_q, 0);
    assert_eq!(after.accounts[u as usize].capital.get(), 0);
    assert_conservation(&after);
}

#[test]
fn k_overflow_fallback_preserves_conservation() {
    let mut w = World::live(1_000_000_000, 1_000_000);
    let u = w.user_idx();
    w.order(0, 9_000_000).expect("open long");
    w.set_price(ORACLE_PRICE / 10);
    w.slot = 10;
    w.liquidate(u).expect("liq");
    assert_conservation(&w.engine());
}

#[test]
fn drain_only_triggered_by_bankrupt_liquidation() {
    let mut w = World::live(1_000_000_000, 1_000_000);
    let u = w.user_idx();
    w.order(0, 9_000_000).expect("open long");
    w.set_price(ORACLE_PRICE / 20);
    w.slot = 10;
    w.liquidate(u).expect("liq");
    let after = w.engine();
    assert_conservation(&after);
    assert!(after.adl_mult_long <= ADL_ONE);
    assert!(after.adl_mult_short <= ADL_ONE);
}

#[test]
fn invalid_victim_slot_rejected() {
    let mut w = World::live(100_000_000, 1_000_000);
    assert_eq!(w.liquidate(0), Err(PercolatorError::ProtocolLpNotLiquidatable));
    assert_eq!(w.liquidate(50), Err(PercolatorError::InvalidVictimSlot));
    assert_eq!(w.liquidate(4_096), Err(PercolatorError::InvalidVictimSlot));
}

#[test]
fn wrong_oracle_rejected() {
    let mut w = World::live(100_000_000, 1_000_000);
    w.order(0, 500_000).expect("open");
    let bogus = key(61);
    w.put(bogus, system_id(), ORACLE_PRICE.to_le_bytes().to_vec());
    let (k, ta, u) = (w.keeper, w.keeper_ta, w.user_idx());
    assert_eq!(w.liquidate_as(k, ta, bogus, u), Err(PercolatorError::StaleOracle));
}

#[test]
fn liquidate_stale_oracle_rejected() {
    let mut w = World::live(100_000_000, 1_000_000);
    w.order(0, 500_000).expect("open");
    w.set_price(0);
    let u = w.user_idx();
    assert_eq!(w.liquidate(u), Err(PercolatorError::StaleOracle));
}

// ---------- cranks ----------

#[test]
fn funding_crank_happy_path() {
    let mut w = World::live(100_000_000, 1_000_000);
    w.slot = 50;
    crank(&mut w, CrankKind::Funding).expect("funding crank");
    let e = w.engine();
    assert!(e.current_slot >= 50);
    assert_eq!(e.last_market_slot, e.current_slot);
    assert_eq!(e.last_crank_slot, e.current_slot);
}

#[test]
fn funding_no_op_returns_error() {
    let mut w = World::live(100_000_000, 1_000_000);
    w.slot = 20;
    crank(&mut w, CrankKind::Funding).expect("advance");
    assert_eq!(crank(&mut w, CrankKind::Funding), Err(PercolatorError::NothingToDo));
}

#[test]
fn gc_no_op_returns_error() {
    let mut w = World::live(100_000_000, 1_000_000);
    assert_eq!(crank(&mut w, CrankKind::Gc), Err(PercolatorError::NothingToDo));
}

#[test]
fn gc_closes_stale_accounts() {
    let mut w = World::live(100_000_000, 1_000_000);
    let mut e = w.engine();
    for &target in &[5usize, 7usize] {
        let nx = e.next_free[target];
        let pr = e.prev_free[target];
        if pr == u16::MAX {
            e.free_head = nx;
        } else {
            e.next_free[pr as usize] = nx;
        }
        if nx != u16::MAX {
            e.prev_free[nx as usize] = pr;
        }
        e.next_free[target] = u16::MAX;
        e.prev_free[target] = u16::MAX;
        e.used[target >> 6] |= 1u64 << (target & 63);
        e.num_used_accounts += 1;
    }
    w.poke(&e);
    fund_insurance(&mut w, 10_000);
    w.slot = 10;
    let before = w.tokens(w.keeper_ta);
    crank(&mut w, CrankKind::Gc).expect("gc crank");
    assert_eq!(w.tokens(w.keeper_ta), before + CRANK_BOUNTY);
    let e = w.engine();
    assert!(!e.is_used(5), "slot 5 reclaimed");
    assert!(!e.is_used(7), "slot 7 reclaimed");
    assert_eq!(e.gc_cursor, 32);
    assert_eq!(e.insurance_fund.balance.get(), 9_000);
}

#[test]
fn gc_skips_lp_slot() {
    let mut w = World::live(100_000_000, 1_000_000);
    assert_eq!(crank(&mut w, CrankKind::Gc), Err(PercolatorError::NothingToDo));
    assert!(w.engine().is_used(0), "LP slot intact");
}

#[test]
fn adl_reset_no_op_returns_error() {
    let mut w = World::live(100_000_000, 1_000_000);
    w.slot = 5;
    assert_eq!(crank(&mut w, CrankKind::AdlReset), Err(PercolatorError::NothingToDo));
}

#[test]
fn adl_reset_without_accounts_has_nothing_to_do() {
    let mut w = World::live(0, 0);
    assert_eq!(crank(&mut w, CrankKind::AdlReset), Err(PercolatorError::NothingToDo));
}

#[test]
fn adl_reset_transition_side_mode() {
    let mut w = World::live(100_000_000, 1_000_000);
    let mut e = w.engine();
    e.side_mode_long = SideMode::DrainOnly;
    e.oi_eff_long_q = 0;
    w.poke(&e);
    w.slot = 10;
    match crank(&mut w, CrankKind::AdlReset) {
        Ok(()) => assert!(w.engine().side_mode_long != SideMode::DrainOnly),
        Err(e) => assert_eq!(e, PercolatorError::NothingToDo),
    }
}

#[test]
fn invalid_crank_kind_rejected() {
    let mut w = World::live(100_000_000, 1_000_000);
    assert_eq!(crank_kind(&mut w, 99), Err(PercolatorError::InvalidCrankKind));
}

#[test]
fn concurrent_funding_cranks_same_slot_idempotent() {
    let mut w = World::live(100_000_000, 1_000_000);
    fund_insurance(&mut w, 100_000);
    w.slot = 30;
    crank(&mut w, CrankKind::Funding).expect("first crank");
    let first = w.engine();
    assert_eq!(crank(&mut w, CrankKind::Funding), Err(PercolatorError::NothingToDo));
    assert_eq!(w.engine(), first);
}

#[test]
fn crank_bounty_stops_at_the_insurance_floor() {
    let mut w = World::new();
    w.create_slab(0).expect("create_slab");
    let mut p = valid_risk_params();
    p.insurance_floor = 9_700;
    let creator = w.creator;
    w.initialize(creator, p, ORACLE_PRICE).expect("initialize_engine");
    fund_insurance(&mut w, 10_000);
    w.slot = 30;
    crank(&mut w, CrankKind::Funding).expect("crank");
    assert_eq!(w.tokens(w.keeper_ta), 300);
    assert_eq!(w.engine().insurance_fund.balance.get(), 9_700);
    w.slot = 31;
    crank(&mut w, CrankKind::Funding).expect("crank without bounty");
    assert_eq!(w.tokens(w.keeper_ta), 300);
}

#[test]
fn undecodable_instructions_are_refused() {
    let w = World::new();
    assert_eq!(
        Processor::process(&w.program, &[], &[], 1, true).err(),
        Some(Failure::Custom(PercolatorError::InvalidInstructionData))
    );
    assert_eq!(
        Processor::process(&w.program, &[], &[1, 0, 0, 0, 0, 0, 0, 0, 1], 1, true).err(),
        Some(Failure::NotEnoughAccountKeys)
    );
}
