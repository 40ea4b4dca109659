//! Account slots: initialization, the used bitmap and the free list.

use vstd::prelude::*;
use crate::constants::{
    ADL_ONE, BITMAP_WORDS, MAX_ACCOUNTS, MAX_MATERIALIZED_ACCOUNTS, MAX_ORACLE_PRICE, NIL_SLOT,
};
use crate::int128::U128;
use crate::model::{agrees_unit, bit_of, params_valid, EngineState};
use crate::types::{
    blank, empty_account, Account, InsuranceFund, MarketMode, RiskEngine, RiskError, RiskParams, SideMode,
};

verus! {

impl EngineState {
    /// A market as it is right after initialization.
    pub open spec fn is_fresh(self, params: RiskParams, slot: u64, price: u64) -> bool {
        &&& self.vault.v == 0
        &&& self.insurance_fund.balance.v == 0
        &&& self.params == params
        &&& self.current_slot == slot
        &&& self.market_mode == MarketMode::Live
        &&& self.resolved_price == 0
        &&& self.resolved_slot == 0
        &&& self.resolved_payout_h_num == 0
        &&& self.resolved_payout_h_den == 0
        &&& self.resolved_payout_ready == 0
        &&& self.resolved_k_long_terminal_delta == 0
        &&& self.resolved_k_short_terminal_delta == 0
        &&& self.resolved_live_price == 0
        &&& self.last_crank_slot == 0
        &&& self.c_tot.v == 0
        &&& self.pnl_pos_tot == 0
        &&& self.pnl_matured_pos_tot == 0
        &&& self.gc_cursor == 0
        &&& self.adl_mult_long == ADL_ONE
        &&& self.adl_mult_short == ADL_ONE
        &&& self.adl_coeff_long == 0
        &&& self.adl_coeff_short == 0
        &&& self.adl_epoch_long == 0
        &&& self.adl_epoch_short == 0
        &&& self.adl_epoch_start_k_long == 0
        &&& self.adl_epoch_start_k_short == 0
        &&& self.oi_eff_long_q == 0
        &&& self.oi_eff_short_q == 0
        &&& self.side_mode_long == SideMode::Normal
        &&& self.side_mode_short == SideMode::Normal
        &&& self.stored_pos_count_long == 0
        &&& self.stored_pos_count_short == 0
        &&& self.stale_account_count_long == 0
        &&& self.stale_account_count_short == 0
        &&& self.phantom_dust_bound_long_q == 0
        &&& self.phantom_dust_bound_short_q == 0
        &&& self.materialized_account_count == 0
        &&& self.neg_pnl_account_count == 0
        &&& self.last_oracle_price == price
        &&& self.fund_px_last == price
        &&& self.last_market_slot == slot
        &&& self.f_long_num == 0
        &&& self.f_short_num == 0
        &&& self.f_epoch_start_long_num == 0
        &&& self.f_epoch_start_short_num == 0
        &&& self.num_used_accounts == 0
        &&& self.free_head == 0
        &&& self.slots_fresh()
    }

    /// Every slot is free and blank, and the free list runs through all slots in
    /// order.
    pub open spec fn slots_fresh(self) -> bool {
        &&& self.used.len() == MAX_ACCOUNTS
        &&& self.accounts.len() == MAX_ACCOUNTS
        &&& self.next_free.len() == MAX_ACCOUNTS
        &&& self.prev_free.len() == MAX_ACCOUNTS
        &&& forall|i: int| 0 <= i < MAX_ACCOUNTS ==> !(#[trigger] self.used[i])
        &&& forall|i: int| 0 <= i < MAX_ACCOUNTS ==> (#[trigger] self.accounts[i]).is_blank(0)
        &&& forall|i: int| 0 <= i < MAX_ACCOUNTS ==> #[trigger] self.next_free[i] == (if i + 1 < MAX_ACCOUNTS {
                (i + 1) as u16
            } else {
                NIL_SLOT
        })
        &&& forall|i: int| 0 <= i < MAX_ACCOUNTS ==> #[trigger] self.prev_free[i] == (if i > 0 {
                (i - 1) as u16
            } else {
                NIL_SLOT
        })
    }

    /// Whether slot `idx` may be freed: used, and nothing is left in it.
    pub open spec fn freeable(self, i: int) -> bool {
        let a = self.accounts[i];
        &&& self.in_use(i)
        &&& a.pnl == 0
        &&& a.reserved_pnl == 0
        &&& a.position_basis_q == 0
        &&& a.sched_present == 0
        &&& a.pending_present == 0
        &&& a.capital.v == 0
        &&& a.fee_credits.v == 0
    }

    /// The state with slot `i` blanked, unmarked and at the head of the free list;
    /// the counters are as before.
    pub open spec fn with_slot_freed(self, i: int) -> EngineState {
        let prev = self.prev_free.update(i, NIL_SLOT);
        EngineState {
            accounts: self.accounts.update(i, blank(0)),
            used: self.used.update(i, false),
            next_free: self.next_free.update(i, self.free_head),
            prev_free: if self.free_head != NIL_SLOT {
                prev.update(self.free_head as int, i as u16)
            } else {
                prev
            },
            free_head: i as u16,
            ..self
        }
    }

    /// Freeing slot `idx`: the state that it leaves, and what it returns. The
    /// counters are checked last, so an error from them leaves the slot freed.
    pub open spec fn free_slot(self, idx: u16) -> (EngineState, Result<(), RiskError>) {
        let i = idx as int;
        if i >= MAX_ACCOUNTS {
            (self, Err(RiskError::AccountNotFound))
        } else if !self.freeable(i) {
            (self, Err(RiskError::CorruptState))
        } else {
            let s1 = self.with_slot_freed(i);
            if s1.num_used_accounts == 0 {
                (s1, Err(RiskError::CorruptState))
            } else {
                let s2 = EngineState { num_used_accounts: (s1.num_used_accounts - 1) as u16, ..s1 };
                if s2.materialized_account_count == 0 {
                    (s2, Err(RiskError::CorruptState))
                } else {
                    (
                        EngineState { materialized_account_count: (s2.materialized_account_count - 1) as u64, ..s2 },
                        Ok(()),
                    )
                }
            }
        }
    }

    /// The free list agrees with itself around slot `i`: the neighbours point back
    /// to it and are free too.
    pub open spec fn links_agree(self, i: int) -> bool {
        let next = self.next_free[i];
        let prev = self.prev_free[i];
        &&& if prev == NIL_SLOT {
            self.free_head == i
        } else {
            self.next_free[prev as int] == i && !self.in_use(prev as int)
        }
        &&& next != NIL_SLOT ==> self.prev_free[next as int] == i && !self.in_use(next as int)
    }

    /// The state with slot `i` out of the free list, marked used and holding a blank
    /// account anchored at `anchor`.
    pub open spec fn with_slot_taken(self, i: int, anchor: u64) -> EngineState {
        let next = self.next_free[i];
        let prev = self.prev_free[i];
        let nf = if prev == NIL_SLOT {
            self.next_free
        } else {
            self.next_free.update(prev as int, next)
        };
        let pf = if next == NIL_SLOT {
            self.prev_free
        } else {
            self.prev_free.update(next as int, prev)
        };
        EngineState {
            free_head: if prev == NIL_SLOT {
                next
            } else {
                self.free_head
            },
            next_free: nf.update(i, NIL_SLOT),
            prev_free: pf.update(i, NIL_SLOT),
            used: self.used.update(i, true),
            accounts: self.accounts.update(i, blank(anchor)),
            num_used_accounts: (self.num_used_accounts + 1) as u16,
            materialized_account_count: (self.materialized_account_count + 1) as u64,
            ..self
        }
    }

    /// Taking the free slot `idx` for a new account, anchored at the
    /// materialization slot.
    pub open spec fn materialize_at(self, idx: u16, anchor: u64) -> Result<EngineState, RiskError> {
        let i = idx as int;
        if i >= MAX_ACCOUNTS {
            Err(RiskError::AccountNotFound)
        } else if self.num_used_accounts >= self.params.max_accounts {
            Err(RiskError::Overflow)
        } else if self.materialized_account_count >= MAX_MATERIALIZED_ACCOUNTS {
            Err(RiskError::Overflow)
        } else if self.used[i] || !self.links_agree(i) {
            Err(RiskError::CorruptState)
        } else {
            Ok(self.with_slot_taken(i, anchor))
        }
    }
}

proof fn lemma_bit_set(w: u64, b: u64)
    by (bit_vector)
    requires
        b < 64,
    ensures
        ((w | (1u64 << b)) >> b) & 1 == 1,
        ((w & !(1u64 << b)) >> b) & 1 == 0,
{
}

proof fn lemma_bit_keep(w: u64, b: u64, c: u64)
    by (bit_vector)
    requires
        b < 64,
        c < 64,
        b != c,
    ensures
        ((w | (1u64 << b)) >> c) & 1 == (w >> c) & 1,
        ((w & !(1u64 << b)) >> c) & 1 == (w >> c) & 1,
{
}

proof fn lemma_zero_word(c: u64)
    by (bit_vector)
    requires
        c < 64,
    ensures
        (0u64 >> c) & 1 == 0,
{
}

proof fn lemma_index_split(i: usize)
    by (bit_vector)
    ensures
        i >> 6 == i / 64,
        i & 63 == i % 64,
{
}

/// Writing one word of the bitmap changes one mark.
proof fn lemma_mark_one(before: Seq<u64>, after: Seq<u64>, i: int, word: u64, mark: bool)
    requires
        before.len() == BITMAP_WORDS,
        0 <= i < MAX_ACCOUNTS,
        after == before.update(i / 64, word),
        word == (if mark {
                before[i / 64] | (1u64 << ((i % 64) as u64))
            } else {
                before[i / 64] & !(1u64 << ((i % 64) as u64))
        }),
    ensures
        Seq::new(MAX_ACCOUNTS as nat, |k: int| bit_of(after[k / 64], k % 64)) == Seq::new(
            MAX_ACCOUNTS as nat,
            |k: int| bit_of(before[k / 64], k % 64),
        ).update(i, mark),
{
    let x = Seq::new(MAX_ACCOUNTS as nat, |k: int| bit_of(after[k / 64], k % 64));
    let y = Seq::new(MAX_ACCOUNTS as nat, |k: int| bit_of(before[k / 64], k % 64)).update(i, mark);
    assert forall|k: int| 0 <= k < MAX_ACCOUNTS implies x[k] == y[k] by {
        let w = before[i / 64];
        lemma_bit_set(w, (i % 64) as u64);
        if k != i && k / 64 == i / 64 {
            assert(k % 64 != i % 64);
            lemma_bit_keep(w, (i % 64) as u64, (k % 64) as u64);
        }
    }
    assert(x =~= y);
}

impl RiskEngine {
    /// Whether the parameters may be used for a market.
    pub(crate) fn validate_params(params: &RiskParams) -> (r: bool)
        ensures
            r == params_valid(*params),
    {
        let scale: u128 = 1_000_000_000_000_000_000_000_000_000;
        let rate: u128 = params.max_abs_funding_e9_per_slot as u128;
        let dt: u128 = params.max_accrual_dt_slots as u128;
        let limit: u128 = 0x7fff_ffff_ffff_ffff_ffff_ffff_ffff_ffff;
        assert(rate * dt < 0x1_0000_0000_0000_0000_0000_0000_0000_0000int) by (nonlinear_arith)
            requires
                0 <= rate <= u64::MAX,
                0 <= dt <= u64::MAX,
            ;
        let slots: u128 = rate * dt;
        proof {
            assert(ADL_ONE * MAX_ORACLE_PRICE * params.max_abs_funding_e9_per_slot * params.max_accrual_dt_slots
                    == scale * slots) by (nonlinear_arith)
                requires
                    ADL_ONE * MAX_ORACLE_PRICE == scale,
                    slots == params.max_abs_funding_e9_per_slot * params.max_accrual_dt_slots,
                ;
        }
        let envelope_ok: bool = match scale.checked_mul(slots) {
            Some(v) => v <= limit,
            None => false,
        };
        params.max_accounts > 0 && params.max_accounts <= MAX_ACCOUNTS as u64
            && params.max_active_positions_per_side > 0
            && params.max_active_positions_per_side <= params.max_accounts
            && params.maintenance_margin_bps <= params.initial_margin_bps
            && params.initial_margin_bps <= 10_000
            && params.trading_fee_bps <= 10_000
            && params.liquidation_fee_bps <= 10_000
            && params.min_nonzero_mm_req > 0
            && params.min_nonzero_mm_req < params.min_nonzero_im_req
            && params.min_nonzero_im_req <= params.min_initial_deposit.v
            && params.min_initial_deposit.v <= 10_000_000_000_000_000
            && params.min_liquidation_abs.v <= params.liquidation_fee_cap.v
            && params.liquidation_fee_cap.v <= 1_000_000_000_000_000_000_000_000_000_000_000_000
            && params.insurance_floor.v <= 10_000_000_000_000_000
            && params.h_min <= params.h_max
            && params.h_max > 0
            && params.resolve_price_deviation_bps <= 10_000
            && params.max_accrual_dt_slots > 0
            && params.max_abs_funding_e9_per_slot <= 1_000_000_000
            && envelope_ok
    }

    /// Whether a market can be initialized with these parameters and this price.
    pub fn can_initialize(params: &RiskParams, init_oracle_price: u64) -> (r: bool)
        ensures
            r == (params_valid(*params) && 0 < init_oracle_price <= MAX_ORACLE_PRICE),
    {
        RiskEngine::validate_params(params) && init_oracle_price > 0 && init_oracle_price <= MAX_ORACLE_PRICE
    }

    /// A new market at slot zero and price one.
    pub fn new(params: RiskParams) -> (r: RiskEngine)
        requires
            params_valid(params),
        ensures
            r.wf(),
            r@.is_fresh(params, 0, 1),
    {
        RiskEngine::new_with_market(params, 0, 1)
    }

    /// A new market.
    pub fn new_with_market(params: RiskParams, init_slot: u64, init_oracle_price: u64) -> (r: RiskEngine)
        requires
            params_valid(params),
            0 < init_oracle_price <= MAX_ORACLE_PRICE,
        ensures
            r.wf(),
            r@.is_fresh(params, init_slot, init_oracle_price),
    {
        let mut engine = RiskEngine {
            vault: U128 { v: 0 },
            insurance_fund: InsuranceFund { balance: U128 { v: 0 } },
            params,
            current_slot: init_slot,
            market_mode: MarketMode::Live,
            resolved_price: 0,
            resolved_slot: 0,
            resolved_payout_h_num: 0,
            resolved_payout_h_den: 0,
            resolved_payout_ready: 0,
            resolved_k_long_terminal_delta: 0,
            resolved_k_short_terminal_delta: 0,
            resolved_live_price: 0,
            last_crank_slot: 0,
            c_tot: U128 { v: 0 },
            pnl_pos_tot: 0,
            pnl_matured_pos_tot: 0,
            gc_cursor: 0,
            adl_mult_long: ADL_ONE,
            adl_mult_short: ADL_ONE,
            adl_coeff_long: 0,
            adl_coeff_short: 0,
            adl_epoch_long: 0,
            adl_epoch_short: 0,
            adl_epoch_start_k_long: 0,
            adl_epoch_start_k_short: 0,
            oi_eff_long_q: 0,
            oi_eff_short_q: 0,
            side_mode_long: SideMode::Normal,
            side_mode_short: SideMode::Normal,
            stored_pos_count_long: 0,
            stored_pos_count_short: 0,
            stale_account_count_long: 0,
            stale_account_count_short: 0,
            phantom_dust_bound_long_q: 0,
            phantom_dust_bound_short_q: 0,
            materialized_account_count: 0,
            neg_pnl_account_count: 0,
            last_oracle_price: init_oracle_price,
            fund_px_last: init_oracle_price,
            last_market_slot: init_slot,
            f_long_num: 0,
            f_short_num: 0,
            f_epoch_start_long_num: 0,
            f_epoch_start_short_num: 0,
            used: Vec::new(),
            num_used_accounts: 0,
            free_head: 0,
            next_free: Vec::new(),
            prev_free: Vec::new(),
            accounts: Vec::new(),
        };
        engine.init_in_place(params, init_slot, init_oracle_price);
        engine
    }

    /// Bring the engine into the state of a new market, whatever it held before.
    pub fn init_in_place(&mut self, params: RiskParams, init_slot: u64, init_oracle_price: u64)
        requires
            params_valid(params),
            0 < init_oracle_price <= MAX_ORACLE_PRICE,
        ensures
            final(self).wf(),
            final(self)@.is_fresh(params, init_slot, init_oracle_price),
    {
        self.vault = U128 { v: 0 };
        self.insurance_fund = InsuranceFund { balance: U128 { v: 0 } };
        self.params = params;
        self.current_slot = init_slot;
        self.market_mode = MarketMode::Live;
        self.resolved_price = 0;
        self.resolved_slot = 0;
        self.resolved_payout_h_num = 0;
        self.resolved_payout_h_den = 0;
        self.resolved_payout_ready = 0;
        self.resolved_k_long_terminal_delta = 0;
        self.resolved_k_short_terminal_delta = 0;
        self.resolved_live_price = 0;
        self.last_crank_slot = 0;
        self.c_tot = U128 { v: 0 };
        self.pnl_pos_tot = 0;
        self.pnl_matured_pos_tot = 0;
        self.gc_cursor = 0;
        self.adl_mult_long = ADL_ONE;
        self.adl_mult_short = ADL_ONE;
        self.adl_coeff_long = 0;
        self.adl_coeff_short = 0;
        self.adl_epoch_long = 0;
        self.adl_epoch_short = 0;
        self.adl_epoch_start_k_long = 0;
        self.adl_epoch_start_k_short = 0;
        self.oi_eff_long_q = 0;
        self.oi_eff_short_q = 0;
        self.side_mode_long = SideMode::Normal;
        self.side_mode_short = SideMode::Normal;
        self.stored_pos_count_long = 0;
        self.stored_pos_count_short = 0;
        self.stale_account_count_long = 0;
        self.stale_account_count_short = 0;
        self.phantom_dust_bound_long_q = 0;
        self.phantom_dust_bound_short_q = 0;
        self.materialized_account_count = 0;
        self.neg_pnl_account_count = 0;
        self.last_oracle_price = init_oracle_price;
        self.fund_px_last = init_oracle_price;
        self.last_market_slot = init_slot;
        self.f_long_num = 0;
        self.f_short_num = 0;
        self.f_epoch_start_long_num = 0;
        self.f_epoch_start_short_num = 0;
        self.num_used_accounts = 0;
        self.free_head = 0;
        self.used = RiskEngine::fresh_bitmap();
        let (next, prev): (Vec<u16>, Vec<u16>) = RiskEngine::fresh_links();
        self.next_free = next;
        self.prev_free = prev;
        self.accounts = RiskEngine::fresh_accounts();
        proof {
            assert forall|i: int| 0 <= i < MAX_ACCOUNTS implies !(#[trigger] self@.used[i]) by {
                lemma_zero_word((i % 64) as u64);
            }
        }
    }

    fn fresh_bitmap() -> (r: Vec<u64>)
        ensures
            r@.len() == BITMAP_WORDS,
            forall|i: int| 0 <= i < BITMAP_WORDS ==> #[trigger] r@[i] == 0,
    {
        let mut v: Vec<u64> = Vec::new();
        let mut i: usize = 0;
        while i < BITMAP_WORDS
            invariant
                i <= BITMAP_WORDS,
                v@.len() == i,
                forall|j: int| 0 <= j < i ==> #[trigger] v@[j] == 0,
            decreases BITMAP_WORDS - i,
        {
            v.push(0);
            i += 1;
        }
        v
    }

    fn fresh_links() -> (r: (Vec<u16>, Vec<u16>))
        ensures
            r.0@.len() == MAX_ACCOUNTS,
            r.1@.len() == MAX_ACCOUNTS,
            forall|i: int| 0 <= i < MAX_ACCOUNTS ==> #[trigger] r.0@[i] == (if i + 1 < MAX_ACCOUNTS {
                    (i + 1) as u16
                } else {
                    NIL_SLOT
            }),
            forall|i: int| 0 <= i < MAX_ACCOUNTS ==> #[trigger] r.1@[i] == (if i > 0 {
                    (i - 1) as u16
                } else {
                    NIL_SLOT
            }),
    {
        let mut next: Vec<u16> = Vec::new();
        let mut prev: Vec<u16> = Vec::new();
        let mut i: usize = 0;
        while i < MAX_ACCOUNTS
            invariant
                i <= MAX_ACCOUNTS,
                next@.len() == i,
                prev@.len() == i,
                forall|j: int| 0 <= j < i ==> #[trigger] next@[j] == (if j + 1 < MAX_ACCOUNTS {
                        (j + 1) as u16
                    } else {
                        NIL_SLOT
                }),
                forall|j: int| 0 <= j < i ==> #[trigger] prev@[j] == (if j > 0 {
                        (j - 1) as u16
                    } else {
                        NIL_SLOT
                }),
            decreases MAX_ACCOUNTS - i,
        {
            if i + 1 < MAX_ACCOUNTS {
                next.push((i + 1) as u16);
            } else {
                next.push(NIL_SLOT);
            }
            if i > 0 {
                prev.push((i - 1) as u16);
            } else {
                prev.push(NIL_SLOT);
            }
            i += 1;
        }
        (next, prev)
    }

    fn fresh_accounts() -> (r: Vec<Account>)
        ensures
            r@.len() == MAX_ACCOUNTS,
            forall|i: int| 0 <= i < MAX_ACCOUNTS ==> (#[trigger] r@[i]).is_blank(0),
    {
        let mut v: Vec<Account> = Vec::new();
        let mut i: usize = 0;
        while i < MAX_ACCOUNTS
            invariant
                i <= MAX_ACCOUNTS,
                v@.len() == i,
                forall|j: int| 0 <= j < i ==> (#[trigger] v@[j]).is_blank(0),
            decreases MAX_ACCOUNTS - i,
        {
            v.push(empty_account(0));
            i += 1;
        }
        v
    }

    /// Whether slot `idx` exists and is used.
    pub fn is_used(&self, idx: usize) -> (r: bool)
        requires
            self.used@.len() == BITMAP_WORDS,
        ensures
            r == self@.in_use(idx as int),
    {
        if idx >= MAX_ACCOUNTS {
            return false;
        }
        proof {
            lemma_index_split(idx);
        }
        let w: usize = idx >> 6;
        let b: usize = idx & 63;
        ((self.used[w] >> (b as u64)) & 1) == 1
    }

    fn set_used(&mut self, idx: usize)
        requires
            old(self).used@.len() == BITMAP_WORDS,
            idx < MAX_ACCOUNTS,
        ensures
            final(self).used@.len() == BITMAP_WORDS,
            final(self)@ == (EngineState { used: old(self)@.used.update(idx as int, true), ..old(self)@ }),
    {
        let w: usize = idx / 64;
        let b: usize = idx % 64;
        let word: u64 = self.used[w] | (1u64 << (b as u64));
        self.used.set(w, word);
        proof {
            lemma_mark_one(old(self).used@, self.used@, idx as int, word, true);
        }
    }

    fn clear_used(&mut self, idx: usize)
        requires
            old(self).used@.len() == BITMAP_WORDS,
            idx < MAX_ACCOUNTS,
        ensures
            final(self).used@.len() == BITMAP_WORDS,
            final(self)@ == (EngineState { used: old(self)@.used.update(idx as int, false), ..old(self)@ }),
    {
        let w: usize = idx / 64;
        let b: usize = idx % 64;
        let word: u64 = self.used[w] & !(1u64 << (b as u64));
        self.used.set(w, word);
        proof {
            lemma_mark_one(old(self).used@, self.used@, idx as int, word, false);
        }
    }

    /// Return a slot to the free list. Nothing may be left in the account.
    pub(crate) fn free_slot(&mut self, idx: u16) -> (r: Result<(), RiskError>)
        requires
            old(self).wf(),
        ensures
            final(self).wf(),
            old(self)@.free_slot(idx) == (final(self)@, r),
    {
        let i: usize = idx as usize;
        if i >= MAX_ACCOUNTS {
            return Err(RiskError::AccountNotFound);
        }
        if !self.is_used(i) {
            return Err(RiskError::CorruptState);
        }
        let a: Account = self.accounts[i];
        if a.pnl != 0 {
            return Err(RiskError::CorruptState);
        }
        if a.reserved_pnl != 0 {
            return Err(RiskError::CorruptState);
        }
        if a.position_basis_q != 0 {
            return Err(RiskError::CorruptState);
        }
        if a.sched_present != 0 || a.pending_present != 0 {
            return Err(RiskError::CorruptState);
        }
        if !a.capital.is_zero() {
            return Err(RiskError::CorruptState);
        }
        if a.fee_credits.v != 0 {
            return Err(RiskError::CorruptState);
        }
        self.accounts.set(i, empty_account(0));
        self.clear_used(i);
        self.next_free.set(i, self.free_head);
        self.prev_free.set(i, NIL_SLOT);
        if self.free_head != NIL_SLOT {
            self.prev_free.set(self.free_head as usize, idx);
        }
        self.free_head = idx;
        assert(self@ == old(self)@.with_slot_freed(i as int));
        if self.num_used_accounts == 0 {
            return Err(RiskError::CorruptState);
        }
        self.num_used_accounts = self.num_used_accounts - 1;
        if self.materialized_account_count == 0 {
            return Err(RiskError::CorruptState);
        }
        self.materialized_account_count = self.materialized_account_count - 1;
        Ok(())
    }

    /// Take a free slot for a new account, anchored at the given fee slot.
    pub(crate) fn materialize_at(&mut self, idx: u16, slot_anchor: u64) -> (r: Result<(), RiskError>)
        requires
            old(self).wf(),
        ensures
            final(self).wf(),
            agrees_unit(old(self)@.materialize_at(idx, slot_anchor), r, final(self)@),
            r is Err ==> final(self)@ == old(self)@,
    {
        let a: Account = empty_account(slot_anchor);
        if idx as usize >= MAX_ACCOUNTS {
            return Err(RiskError::AccountNotFound);
        }
        if self.num_used_accounts as u64 >= self.params.max_accounts {
            return Err(RiskError::Overflow);
        }
        if self.materialized_account_count >= MAX_MATERIALIZED_ACCOUNTS {
            return Err(RiskError::Overflow);
        }
        let i: usize = idx as usize;
        if self.is_used(i) {
            return Err(RiskError::CorruptState);
        }
        let next: u16 = self.next_free[i];
        let prev: u16 = self.prev_free[i];
        if prev == NIL_SLOT {
            if self.free_head != idx {
                return Err(RiskError::CorruptState);
            }
        } else {
            if self.next_free[prev as usize] != idx {
                return Err(RiskError::CorruptState);
            }
            if self.is_used(prev as usize) {
                return Err(RiskError::CorruptState);
            }
        }
        if next != NIL_SLOT {
            if self.prev_free[next as usize] != idx {
                return Err(RiskError::CorruptState);
            }
            if self.is_used(next as usize) {
                return Err(RiskError::CorruptState);
            }
        }
        self.materialized_account_count = self.materialized_account_count + 1;
        if prev == NIL_SLOT {
            self.free_head = next;
        } else {
            self.next_free.set(prev as usize, next);
        }
        if next != NIL_SLOT {
            self.prev_free.set(next as usize, prev);
        }
        self.next_free.set(i, NIL_SLOT);
        self.prev_free.set(i, NIL_SLOT);
        self.set_used(i);
        self.num_used_accounts = self.num_used_accounts + 1;
        self.accounts.set(i, a);
        assert(self@ == old(self)@.with_slot_taken(i as int, slot_anchor));
        Ok(())
    }
}

} // verus!
