use percolator::address::{AccountView, Failure, Pubkey};
use percolator::constants::ADL_ONE;
use percolator::int128::U128;
use percolator::keeper::strategy::{decide, Action, SlabSnapshot, LIQ_BOUNTY_BPS, MIN_BOUNTY_THRESHOLD};
use percolator::oracle::state::{Feed, RING_LEN};
use percolator::program::checks::TREASURY_PUBKEY;
use percolator::program::error::PercolatorError;
use percolator::program::instruction::{
    BootstrapLpArgs, CreateSlabArgs, DepositArgs, InitializeEngineArgs, LiquidateArgs, PercolatorInstruction,
    PlaceOrderArgs, RiskParamsArgs,
};
use percolator::program::processor::Processor;
use percolator::program::state::{engine_region_size, slab_account_size, try_find_vault_pda, ENGINE_OFFSET};
use percolator::types::{RiskEngine, SideMode};
use solana_program::program_option::COption;
use solana_program::program_pack::Pack;
use spl_token::state::AccountState;

const STALE_SLOTS: u64 = 150;

const TEST_MAX_ACCOUNTS: u64 = 64;
const ORACLE_PRICE: u64 = 1_000_000;

fn key(n: u8) -> Pubkey {
    let mut bytes = [n; 32];
    bytes[31] = 1;
    Pubkey::new_from_array(bytes)
}

fn valid_risk_params() -> RiskParamsArgs {
    RiskParamsArgs {
        maintenance_margin_bps: 500,
        initial_margin_bps: 1_000,
        trading_fee_bps: 0,
        max_accounts: TEST_MAX_ACCOUNTS,
        max_crank_staleness_slots: 1_000_000,
        liquidation_fee_bps: 100,
        liquidation_fee_cap: 1_000_000_000,
        min_liquidation_abs: 100,
        min_initial_deposit: 1_000,
        min_nonzero_mm_req: 100,
        min_nonzero_im_req: 200,
        insurance_floor: 0,
        h_min: 10,
        h_max: 1_000,
        resolve_price_deviation_bps: 500,
        max_accrual_dt_slots: 1_000_000,
        max_abs_funding_e9_per_slot: 100,
        min_funding_lifetime_slots: 1_000_000,
        max_active_positions_per_side: TEST_MAX_ACCOUNTS,
    }
}

fn packed_token_account(mint: Pubkey, owner: Pubkey, amount: u64) -> Vec<u8> {
    let mut data = vec![0u8; spl_token::state::Account::LEN];
    let ta = spl_token::state::Account {
        mint: solana_program::pubkey::Pubkey::new_from_array(mint.to_bytes()),
        owner: solana_program::pubkey::Pubkey::new_from_array(owner.to_bytes()),
        amount,
        delegate: COption::None,
        state: AccountState::Initialized,
        is_native: COption::None,
        delegated_amount: 0,
        close_authority: COption::None,
    };
    spl_token::state::Account::pack(ta, &mut data).unwrap();
    data
}

fn token_id() -> Pubkey {
    Pubkey::new_from_array(spl_token::id().to_bytes())
}

fn system_id() -> Pubkey {
    Pubkey::new_from_array(solana_program::system_program::id().to_bytes())
}

#[derive(Clone)]
struct Stored {
    owner: Pubkey,
    lamports: u64,
    data: Vec<u8>,
}

/// One market and everybody around it.
struct World {
    program: Pubkey,
    slab: Pubkey,
    mint: Pubkey,
    oracle: Pubkey,
    vault: Pubkey,
    vault_bump: u8,
    creator: Pubkey,
    creator_ta: Pubkey,
    user: Pubkey,
    user_ta: Pubkey,
    keeper: Pubkey,
    keeper_ta: Pubkey,
    accounts: Vec<(Pubkey, Stored)>,
    slot: u64,
}

impl World {
    fn new() -> World {
        let program = key(1);
        let slab = key(2);
        let (vault, vault_bump) = try_find_vault_pda(&slab, &program).unwrap();
        let mut w = World {
            program,
            slab,
            mint: key(3),
            oracle: key(4),
            vault,
            vault_bump,
            creator: key(5),
            creator_ta: key(6),
            user: key(7),
            user_ta: key(8),
            keeper: key(9),
            keeper_ta: key(10),
            accounts: vec![],
            slot: 1,
        };
        w.put(slab, program, vec![0u8; slab_account_size()]);
        w.put_tokens(w.creator_ta, w.creator, 1_000_000_000_000);
        w.put_tokens(w.user_ta, w.user, 1_000_000_000);
        w.put_tokens(w.keeper_ta, w.keeper, 0);
        w.put_tokens(vault, vault, 0);
        w.set_price(ORACLE_PRICE);
        w.put(Pubkey::new_from_array(TREASURY_PUBKEY), system_id(), vec![]);
        w
    }

    fn put(&mut self, k: Pubkey, owner: Pubkey, data: Vec<u8>) {
        self.accounts.retain(|(x, _)| *x != k);
        self.accounts.push((k, Stored { owner, lamports: 10_000_000, data }));
    }

    fn put_tokens(&mut self, k: Pubkey, authority: Pubkey, amount: u64) {
        let data = packed_token_account(self.mint, authority, amount);
        self.put(k, token_id(), data);
    }

    fn get(&self, k: Pubkey) -> Stored {
        match self.accounts.iter().find(|(x, _)| *x == k) {
            Some((_, s)) => s.clone(),
            None => Stored { owner: system_id(), lamports: 0, data: vec![] },
        }
    }

    /// An oracle account that holds nothing but its price.
    fn set_price(&mut self, price: u64) {
        self.put(self.oracle, system_id(), price.to_le_bytes().to_vec());
    }

    /// An oracle account that is a feed.
    fn set_feed(&mut self, price: u64, last_update_slot: u64, initialized: u8) {
        let feed = Feed {
            price_lamports_per_token: price,
            last_update_slot,
            mint: key(0),
            source: key(0),
            source_kind: 0,
            graduated: 0,
            initialized,
            ring_idx: 0,
            _pad: [0; 4],
            ring_buffer: [0; RING_LEN],
        };
        let mut data = vec![0u8; Feed::LEN];
        feed.write_into(&mut data).unwrap();
        self.put(self.oracle, system_id(), data);
    }

    fn tokens(&self, k: Pubkey) -> u64 {
        spl_token::state::Account::unpack(&self.get(k).data).unwrap().amount
    }

    fn add_tokens(&mut self, k: Pubkey, change: i128) {
        let s = self.get(k);
        let mut ta = spl_token::state::Account::unpack(&s.data).unwrap();
        ta.amount = (ta.amount as i128 + change) as u64;
        let mut data = s.data.clone();
        spl_token::state::Account::pack(ta, &mut data).unwrap();
        self.put(k, token_id(), data);
    }

    /// Run one instruction and carry out what comes of it.
    fn send(&mut self, ix: PercolatorInstruction, metas: &[(Pubkey, bool, bool)]) -> Result<(), PercolatorError> {
        let views: Vec<AccountView> = metas
            .iter()
            .map(|(k, signer, writable)| {
                let s = self.get(*k);
                AccountView {
                    key: *k,
                    owner: s.owner,
                    is_signer: *signer,
                    is_writable: *writable,
                    data: s.data,
                }
            })
            .collect();
        let o = match Processor::process(&self.program, &views, &ix.pack(), self.slot, true) {
            Ok(o) => o,
            Err(Failure::Custom(e)) => return Err(e),
            Err(Failure::NotEnoughAccountKeys) => panic!("all accounts were given"),
        };
        let program = self.program;
        self.put(self.slab, program, o.slab_data);
        if let Some(t) = o.tokens {
            assert!(self.tokens(t.source) >= t.amount, "source covers the transfer");
            let authority = spl_token::state::Account::unpack(&self.get(t.source).data).unwrap().owner;
            assert_eq!(authority.to_bytes(), t.authority.to_bytes());
            if t.source == self.vault {
                assert_eq!(t.vault_bump, Some(self.vault_bump));
            } else {
                assert_eq!(t.vault_bump, None);
            }
            self.add_tokens(t.source, -(t.amount as i128));
            self.add_tokens(t.destination, t.amount as i128);
        }
        if let Some(t) = o.lamports {
            let mut s = self.get(t.destination);
            s.lamports += t.lamports;
            self.accounts.retain(|(x, _)| *x != t.destination);
            self.accounts.push((t.destination, s));
        }
        Ok(())
    }

    fn create_slab(&mut self, bump: u8) -> Result<(), PercolatorError> {
        let metas = [
            (self.creator, true, true),
            (self.slab, false, true),
            (self.mint, false, false),
            (self.oracle, false, false),
            (system_id(), false, false),
        ];
        let vault_bump = self.vault_bump;
        self.send(PercolatorInstruction::CreateSlab(CreateSlabArgs { bump, vault_bump }), &metas)
    }

    fn initialize(&mut self, signer: Pubkey, risk_params: RiskParamsArgs, init_oracle_price: u64) -> Result<(), PercolatorError> {
        let metas = [(self.slab, false, true), (signer, true, false)];
        self.send(
            PercolatorInstruction::InitializeEngine(InitializeEngineArgs { risk_params, init_oracle_price }),
            &metas,
        )
    }

    fn token_metas(&self, holder: Pubkey, holder_ta: Pubkey, vault: Pubkey, mint: Pubkey) -> [(Pubkey, bool, bool); 7] {
        [
            (self.slab, false, true),
            (holder, true, false),
            (holder_ta, false, true),
            (vault, false, true),
            (mint, false, false),
            (token_id(), false, false),
            (system_id(), false, false),
        ]
    }

    fn deposit(&mut self, amount: u64) -> Result<(), PercolatorError> {
        let metas = self.token_metas(self.user, self.user_ta, self.vault, self.mint);
        self.send(PercolatorInstruction::Deposit(DepositArgs { amount }), &metas)
    }

    fn bootstrap(&mut self, amount: u64) -> Result<(), PercolatorError> {
        let metas = self.token_metas(self.creator, self.creator_ta, self.vault, self.mint);
        self.send(PercolatorInstruction::BootstrapLp(BootstrapLpArgs { amount }), &metas)
    }

    fn order_at(&mut self, oracle: Pubkey, side: u8, size: u64, max_price: u64, min_price: u64) -> Result<(), PercolatorError> {
        let metas = [
            (self.slab, false, true),
            (self.user, true, false),
            (oracle, false, false),
            (key(50), false, false),
        ];
        self.send(
            PercolatorInstruction::PlaceOrder(PlaceOrderArgs { side, size, max_price, min_price }),
            &metas,
        )
    }

    fn order(&mut self, side: u8, size: u64) -> Result<(), PercolatorError> {
        let oracle = self.oracle;
        self.order_at(oracle, side, size, u64::MAX, 0)
    }

    fn liquidate_as(&mut self, keeper: Pubkey, keeper_ta: Pubkey, oracle: Pubkey, victim_slot: u16) -> Result<(), PercolatorError> {
        let metas = [
            (self.slab, false, true),
            (keeper, true, false),
            (keeper_ta, false, true),
            (oracle, false, false),
            (key(50), false, false),
            (self.vault, false, true),
            (token_id(), false, false),
        ];
        self.send(PercolatorInstruction::Liquidate(LiquidateArgs { victim_slot }), &metas)
    }

    fn liquidate(&mut self, victim_slot: u16) -> Result<(), PercolatorError> {
        let (k, ta, o) = (self.keeper, self.keeper_ta, self.oracle);
        self.liquidate_as(k, ta, o, victim_slot)
    }

    fn engine(&self) -> RiskEngine {
        RiskEngine::from_bytes(&self.get(self.slab).data[ENGINE_OFFSET..]).unwrap()
    }

    fn poke(&mut self, e: &RiskEngine) {
        let mut s = self.get(self.slab);
        s.data.truncate(ENGINE_OFFSET);
        s.data.extend_from_slice(&e.to_bytes());
        self.put(self.slab, s.owner, s.data);
    }

    fn user_idx(&self) -> u16 {
        self.engine().find_owner(&self.user.to_bytes()).expect("user slot")
    }

    /// A market with an LP and a user, each where the amount is not zero.
    fn live(lp: u64, user: u64) -> World {
        let mut w = World::new();
        w.create_slab(0).expect("create_slab");
        let creator = w.creator;
        w.initialize(creator, valid_risk_params(), ORACLE_PRICE).expect("initialize_engine");
        if lp > 0 {
            w.bootstrap(lp).expect("bootstrap_lp");
        }
        if user > 0 {
            w.deposit(user).expect("deposit");
        }
        w
    }
}

fn with_long(lp: u64, user: u64, size: u64) -> World {
    let mut w = World::live(lp, user);
    w.set_feed(ORACLE_PRICE, 0, 1);
    w.order(0, size).expect("long");
    w
}

fn snapshot(w: &World, oracle_price: u64) -> SlabSnapshot {
    let data = w.get(w.slab).data;
    SlabSnapshot {
        slab: w.slab,
        now_slot: w.slot,
        engine_bytes: data[ENGINE_OFFSET..ENGINE_OFFSET + engine_region_size()].to_vec(),
        oracle_price: Some(oracle_price),
        oracle_last_update_slot: w.slot,
        stale_slots: STALE_SLOTS,
        funding_staleness_slots: 10_000,
    }
}

#[test]
fn integration_skips_healthy_account() {
    let w = with_long(100_000_000, 1_000_000, 100_000);
    match decide(&snapshot(&w, ORACLE_PRICE)) {
        Action::Liquidate { .. } => panic!("healthy account must not be flagged"),
        _ => {}
    }
}

#[test]
fn integration_liquidates_underwater_account() {
    let mut w = with_long(1_000_000_000, 1_000_000, 9_000_000);
    let crashed = ORACLE_PRICE / 5;
    w.set_price(crashed);
    let (victim_slot, est) = match decide(&snapshot(&w, crashed)) {
        Action::Liquidate { victim_slot, estimated_bounty } => (victim_slot, estimated_bounty),
        other => panic!("expected Liquidate, got {:?}", other),
    };
    w.slot = 10;
    w.liquidate(victim_slot).expect("liq");
    assert!(est > 0);
    assert_eq!(est, 1_000_000 * LIQ_BOUNTY_BPS / 10_000);
    assert!(w.tokens(w.keeper_ta) as u128 <= est);
    assert_eq!(w.engine().accounts[victim_slot as usize].position_basis_q, 0);
}

#[test]
fn integration_bounty_threshold_respected() {
    let mut w = World::live(1_000_000_000, 1_000);
    let mut e = w.engine();
    let i = w.user_idx() as usize;
    e.accounts[i].position_basis_q = 1_000_000;
    e.accounts[i].adl_a_basis = ADL_ONE;
    e.oi_eff_long_q += 1_000_000;
    e.oi_eff_short_q += 1_000_000;
    e.accounts[i].pnl = -100_000_000;
    w.poke(&e);
    match decide(&snapshot(&w, ORACLE_PRICE)) {
        Action::Liquidate { estimated_bounty, .. } => panic!(
            "sub-threshold bounty must not be submitted: bounty={} < MIN={}",
            estimated_bounty, MIN_BOUNTY_THRESHOLD
        ),
        _ => {}
    }
}

#[test]
fn integration_two_keepers_no_double_claim() {
    let mut w = with_long(1_000_000_000, 1_000_000, 9_000_000);
    let crashed = ORACLE_PRICE / 5;
    w.set_price(crashed);
    let victim_slot = match decide(&snapshot(&w, crashed)) {
        Action::Liquidate { victim_slot, .. } => victim_slot,
        other => panic!("expected Liquidate, got {:?}", other),
    };
    w.slot = 10;
    w.liquidate(victim_slot).expect("keeper A");
    match decide(&snapshot(&w, crashed)) {
        Action::Liquidate { .. } => panic!("second keeper must not see Liquidate"),
        _ => {}
    }
    w.slot = 11;
    let (b, b_ta, oracle) = (key(11), key(12), w.oracle);
    w.put_tokens(b_ta, b, 0);
    assert_eq!(w.liquidate_as(b, b_ta, oracle, victim_slot), Err(PercolatorError::AccountHealthy));
}

#[test]
fn integration_refresh_oracle_when_stale() {
    let w = with_long(100_000_000, 1_000_000, 100_000);
    let mut snap = snapshot(&w, ORACLE_PRICE);
    snap.oracle_last_update_slot = 0;
    snap.now_slot = 500;
    assert_eq!(decide(&snap), Action::RefreshOracle);
}

#[test]
fn integration_stale_funding_triggers_crank_funding() {
    let w = with_long(100_000_000, 1_000_000, 100_000);
    let mut snap = snapshot(&w, ORACLE_PRICE);
    snap.now_slot = 1_000_000;
    snap.funding_staleness_slots = 100;
    snap.oracle_last_update_slot = snap.now_slot - 10;
    assert_eq!(decide(&snap), Action::CrankFunding);
}

#[test]
fn missing_price_comes_first_whatever_the_bytes() {
    let w = World::new();
    let snap = SlabSnapshot {
        slab: w.slab,
        now_slot: 5,
        engine_bytes: vec![],
        oracle_price: None,
        oracle_last_update_slot: 5,
        stale_slots: STALE_SLOTS,
        funding_staleness_slots: 1,
    };
    assert_eq!(decide(&snap), Action::RefreshOracle);
}

#[test]
fn quiet_market_is_left_alone() {
    let w = World::live(100_000_000, 1_000_000);
    assert_eq!(decide(&snapshot(&w, ORACLE_PRICE)), Action::Skip);
}

#[test]
fn drained_side_is_reset() {
    let mut w = World::live(100_000_000, 1_000_000);
    let mut e = w.engine();
    e.side_mode_short = SideMode::DrainOnly;
    w.poke(&e);
    assert_eq!(decide(&snapshot(&w, ORACLE_PRICE)), Action::CrankAdlReset);
}

#[test]
fn dust_is_collected() {
    let mut w = World::live(100_000_000, 1_000_000);
    let mut e = w.engine();
    let i = w.user_idx() as usize;
    e.accounts[i].capital = U128::new(999);
    w.poke(&e);
    assert_eq!(decide(&snapshot(&w, ORACLE_PRICE)), Action::CrankGc);
}
