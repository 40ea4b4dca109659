//! What the instructions do to the engine, once their accounts have been
//! checked.

use vstd::prelude::*;
use crate::address::{same_array, Pubkey};
use crate::constants::{GC_CLOSE_BUDGET, MAX_ACCOUNTS, NIL_SLOT};
use crate::int128::U128;
use crate::model::EngineState;
use crate::program::error::PercolatorError;
use crate::program::instruction::CrankKind;
use crate::types::{Account, LiquidationPolicy, RiskEngine, RiskError, Side, SideMode};
use crate::wide_math::{abs_i128, abs_of, min_of, saturating_mul_u128};

verus! {

/// The slot of the protocol LP, against which every order trades.
pub const PROTOCOL_LP_SLOT: u16 = 0;

/// The owner that marks the protocol LP. It is nobody's key, so that no deposit
/// can be taken for one of the LP.
pub const PROTOCOL_LP_OWNER_SENTINEL: [u8; 32] = [
    255, 255, 255, 255, 255, 255, 255, 255, 255, 255, 255, 255, 255, 255, 255, 255, 255, 255, 255, 255, 255, 255, 255, 255,
    255, 255, 255, 255, 255, 255, 255, 255,
];

/// The liquidator's bounty, in basis points of the capital before liquidation.
pub const LIQ_BOUNTY_BPS: u128 = 50;

/// The bounty of a crank that did something.
pub const CRANK_BOUNTY: u64 = 1_000;

/// The result of an engine operation, with any of its errors as one.
pub open spec fn engine_ok<T>(r: Result<T, RiskError>) -> Result<T, PercolatorError> {
    match r {
        Ok(v) => Ok(v),
        Err(_) => Err(PercolatorError::EngineError),
    }
}

/// An operation gave `r` and left `post`, as the model says.
pub open spec fn yields<T>(
    model: Result<(EngineState, T), PercolatorError>,
    r: Result<T, PercolatorError>,
    post: EngineState,
) -> bool {
    match r {
        Ok(v) => model == Ok::<(EngineState, T), PercolatorError>((post, v)),
        Err(e) => model == Err::<(EngineState, T), PercolatorError>(e),
    }
}

/// As [`yields`], for operations without a result value.
pub open spec fn yields_unit(
    model: Result<EngineState, PercolatorError>,
    r: Result<(), PercolatorError>,
    post: EngineState,
) -> bool {
    match r {
        Ok(_) => model == Ok::<EngineState, PercolatorError>(post),
        Err(e) => model == Err::<EngineState, PercolatorError>(e),
    }
}

/// The first number from `lo` up to `hi` that satisfies `p`.
pub open spec fn first_where(lo: int, hi: int, p: spec_fn(int) -> bool) -> Option<u16>
    decreases hi - lo,
{
    if lo >= hi {
        None
    } else if p(lo) {
        Some(lo as u16)
    } else {
        first_where(lo + 1, hi, p)
    }
}

/// What [`first_where`] finds satisfies the condition, and nothing before it
/// does.
pub proof fn first_where_is_first(lo: int, hi: int, p: spec_fn(int) -> bool)
    requires
        0 <= lo,
        hi <= u16::MAX + 1,
    ensures
        match first_where(lo, hi, p) {
            Some(i) => lo <= i < hi && p(i as int) && forall|j: int| lo <= j < i ==> !#[trigger] p(j),
            None => forall|j: int| lo <= j < hi ==> !#[trigger] p(j),
        },
    decreases hi - lo,
{
    if lo < hi && !p(lo) {
        first_where_is_first(lo + 1, hi, p);
    }
}

impl EngineState {
    /// Slot `i` is used and belongs to `owner`.
    pub open spec fn owned_by(self, i: int, owner: [u8; 32]) -> bool {
        self.in_use(i) && self.accounts[i].owner == owner
    }

    /// The first slot that belongs to `owner`.
    pub open spec fn owner_slot(self, owner: [u8; 32]) -> Option<u16> {
        first_where(0, self.params.max_accounts as int, |i: int| self.owned_by(i, owner))
    }

    /// Deposit for `user`: into the user's slot, or into the first free one, which
    /// then becomes the user's. Gives the slot, and whether it is new.
    pub open spec fn take_deposit(
        self,
        user: Pubkey,
        amount: u64,
        now: u64,
    ) -> Result<(EngineState, (u16, bool)), PercolatorError> {
        match self.owner_slot(user.bytes) {
            Some(i) => {
                match engine_ok(self.deposit(i, amount as u128, now)) {
                    Err(e) => Err(e),
                    Ok(t) => Ok((t, (i, false))),
                }
            },
            None => {
                if self.free_head == NIL_SLOT {
                    Err(PercolatorError::SlabFull)
                } else {
                    match engine_ok(self.deposit(self.free_head, amount as u128, now)) {
                        Err(e) => Err(e),
                        Ok(t) => match engine_ok(t.set_owner(self.free_head, user.bytes)) {
                            Err(e) => Err(e),
                            Ok(u) => Ok((u, (self.free_head, true))),
                        },
                    }
                }
            },
        }
    }

    /// Withdraw from the slot of `user`.
    pub open spec fn give_withdrawal(
        self,
        user: Pubkey,
        amount: u64,
        now: u64,
    ) -> Result<EngineState, PercolatorError> {
        match self.owner_slot(user.bytes) {
            Some(i) => engine_ok(
                self.withdraw(i, amount as u128, self.last_oracle_price, now, 0, self.params.h_min, self.params.h_max),
            ),
            None => Err(PercolatorError::EngineError),
        }
    }

    /// Fund the protocol LP, in a market where nobody has deposited yet.
    pub open spec fn fund_lp(self, amount: u64, now: u64) -> Result<EngineState, PercolatorError> {
        if self.in_use(PROTOCOL_LP_SLOT as int) {
            Err(PercolatorError::LpAlreadyBootstrapped)
        } else if self.free_head != PROTOCOL_LP_SLOT {
            Err(PercolatorError::LpAlreadyBootstrapped)
        } else {
            match engine_ok(self.deposit(PROTOCOL_LP_SLOT, amount as u128, now)) {
                Err(e) => Err(e),
                Ok(t) => {
                    let lp = t.accounts[PROTOCOL_LP_SLOT as int];
                    Ok(
                        t.with_account(
                            PROTOCOL_LP_SLOT as int,
                            Account { kind: Account::KIND_LP, owner: PROTOCOL_LP_OWNER_SENTINEL, ..lp },
                        ),
                    )
                },
            }
        }
    }

    /// The protocol LP is in place.
    pub open spec fn has_lp(self) -> bool {
        self.owned_by(PROTOCOL_LP_SLOT as int, PROTOCOL_LP_OWNER_SENTINEL)
    }

    /// An order of `size` on `side` adds to that side: the user holds nothing, or
    /// something on the same side, or less than `size` on the other.
    pub open spec fn order_opens(self, i: int, side: Side, size: u64) -> bool {
        let pos = self.effective_pos(i);
        pos == 0 || (pos > 0) == (side == Side::Long) || size > abs_of(pos)
    }

    /// An order of `user` against the protocol LP, at the price given.
    pub open spec fn place_order(
        self,
        user: Pubkey,
        side: Side,
        size: u64,
        price: u64,
        now: u64,
    ) -> Result<EngineState, PercolatorError> {
        match self.owner_slot(user.bytes) {
            Some(i) => {
                if !self.has_lp() {
                    Err(PercolatorError::LpNotBootstrapped)
                } else if self.order_opens(i as int, side, size) && self.side_mode(side) != SideMode::Normal {
                    Err(PercolatorError::DrainOnly)
                } else {
                    let buyer = if side == Side::Long {
                        i
                    } else {
                        PROTOCOL_LP_SLOT
                    };
                    let seller = if side == Side::Long {
                        PROTOCOL_LP_SLOT
                    } else {
                        i
                    };
                    engine_ok(
                        self.execute_trade(
                            buyer,
                            seller,
                            price,
                            now,
                            size as i128,
                            price,
                            0,
                            self.params.h_min,
                            self.params.h_max,
                        ),
                    )
                }
            },
            None => Err(PercolatorError::EngineError),
        }
    }

    /// The bounty for liquidating an account that had `before` capital and has
    /// `left`.
    pub open spec fn liquidation_bounty(before: u128, left: u128) -> u128 {
        min_of(min_of(before * LIQ_BOUNTY_BPS, u128::MAX as int) / 10_000, left as int) as u128
    }

    /// Liquidate the account in slot `victim` and take the bounty out of what is left
    /// of its capital. Gives the bounty.
    pub open spec fn seize(self, victim: u16, price: u64, now: u64) -> Result<(EngineState, u128), PercolatorError> {
        let i = victim as int;
        if !self.in_use(i) {
            Err(PercolatorError::InvalidVictimSlot)
        } else {
            match engine_ok(
                self.liquidate(
                    victim,
                    now,
                    price,
                    LiquidationPolicy::FullClose,
                    0,
                    self.params.h_min,
                    self.params.h_max,
                ),
            ) {
                Err(e) => Err(e),
                Ok((t, did)) => {
                    if !did {
                        Err(PercolatorError::AccountHealthy)
                    } else {
                        let left = t.accounts[i].capital.v;
                        let bounty = EngineState::liquidation_bounty(self.accounts[i].capital.v, left);
                        if bounty > t.c_tot.v || bounty > t.vault.v {
                            Err(PercolatorError::EngineError)
                        } else {
                            let u = EngineState {
                                c_tot: U128 { v: (t.c_tot.v - bounty) as u128 },
                                vault: U128 { v: (t.vault.v - bounty) as u128 },
                                ..t
                            };
                            Ok((u.with_account(i, Account {
                                capital: U128 { v: (left - bounty) as u128 },
                                ..t.accounts[i]
                            }), bounty))
                        }
                    }
                },
            }
        }
    }

    /// Accrue the market to slot `now`, which must be later than the last accrual.
    pub open spec fn crank_funding(self, now: u64) -> Result<EngineState, PercolatorError> {
        if self.last_market_slot >= now {
            Err(PercolatorError::NothingToDo)
        } else {
            match engine_ok(self.accrue(now, self.last_oracle_price, 0)) {
                Err(e) => Err(e),
                Ok(t) => Ok(EngineState { current_slot: now, last_crank_slot: now, ..t }),
            }
        }
    }

    /// Slot `i` may be reclaimed by a crank: it is used, and holds no position, no
    /// PnL, no reserve and less capital than a first deposit.
    pub open spec fn reclaimable(self, i: int) -> bool {
        let a = self.accounts[i];
        &&& self.in_use(i)
        &&& a.position_basis_q == 0
        &&& a.pnl == 0
        &&& a.reserved_pnl == 0
        &&& a.sched_present == 0
        &&& a.pending_present == 0
        &&& a.capital.v < self.params.min_initial_deposit.v
    }

    /// Look at the next `steps` slots after `cursor`, cyclically among `max`, and
    /// reclaim those that may be, the LP's excepted. A slot that the engine refuses
    /// to reclaim is passed over. Gives the last slot looked at, and how many were
    /// reclaimed on top of `count`.
    pub open spec fn sweep(self, cursor: int, steps: nat, max: int, now: u64, count: int) -> (EngineState, int, int)
        decreases steps,
    {
        if steps == 0 {
            (self, cursor, count)
        } else {
            let c = (cursor + 1) % max;
            if c != PROTOCOL_LP_SLOT && self.reclaimable(c) {
                let (t, r) = self.reclaim(c as u16, now);
                t.sweep(
                    c,
                    (steps - 1) as nat,
                    max,
                    now,
                    if r is Ok {
                        count + 1
                    } else {
                        count
                    },
                )
            } else {
                self.sweep(c, (steps - 1) as nat, max, now, count)
            }
        }
    }

    /// Reclaim slots that hold dust, from where the last such crank stopped.
    pub open spec fn crank_gc(self, now: u64) -> Result<EngineState, PercolatorError> {
        let max = self.params.max_accounts as int;
        let (t, cursor, count) = self.sweep(self.gc_cursor as int, min_of(GC_CLOSE_BUDGET as int, max) as nat, max, now, 0);
        if count <= 0 {
            Err(PercolatorError::NothingToDo)
        } else {
            Ok(EngineState { gc_cursor: cursor as u16, ..t })
        }
    }

    /// The slot on which a reset crank settles: the LP's, or else the first that is
    /// used.
    pub open spec fn anchor(self) -> Option<u16> {
        if self.in_use(PROTOCOL_LP_SLOT as int) {
            Some(PROTOCOL_LP_SLOT)
        } else {
            first_where(0, self.params.max_accounts as int, |i: int| self.in_use(i))
        }
    }

    /// Settle one account, which must change the mode of a side.
    pub open spec fn crank_adl_reset(self, now: u64) -> Result<EngineState, PercolatorError> {
        match self.anchor() {
            Some(i) => {
                match engine_ok(
                    self.settle_account(i, self.last_oracle_price, now, 0, self.params.h_min, self.params.h_max),
                ) {
                    Err(e) => Err(e),
                    Ok(t) => {
                        if t.side_mode_long == self.side_mode_long && t.side_mode_short == self.side_mode_short {
                            Err(PercolatorError::NothingToDo)
                        } else {
                            Ok(t)
                        }
                    },
                }
            },
            None => Err(PercolatorError::NothingToDo),
        }
    }

    /// Take the crank bounty from what the insurance fund holds above its floor.
    pub open spec fn pay_crank(self) -> Result<(EngineState, u64), PercolatorError> {
        let spare = self.insurance_fund.balance.v - self.params.insurance_floor.v;
        let pay = if spare <= 0 {
            0
        } else {
            min_of(spare, CRANK_BOUNTY as int)
        };
        if pay > self.vault.v {
            Err(PercolatorError::EngineError)
        } else {
            Ok(
                (
                    EngineState {
                        vault: U128 { v: (self.vault.v - pay) as u128 },
                        ..self.with_insurance((self.insurance_fund.balance.v - pay) as u128)
                    },
                    pay as u64,
                ),
            )
        }
    }

    /// Do the maintenance work of a kind, and pay for it. Gives the bounty.
    pub open spec fn crank_for(self, kind: CrankKind, now: u64) -> Result<(EngineState, u64), PercolatorError> {
        match match kind {
            CrankKind::Funding => self.crank_funding(now),
            CrankKind::Gc => self.crank_gc(now),
            CrankKind::AdlReset => self.crank_adl_reset(now),
        } {
            Err(e) => Err(e),
            Ok(t) => t.pay_crank(),
        }
    }
}

impl RiskEngine {
    /// The first slot that belongs to `owner`.
    pub fn find_owner(&self, owner: &[u8; 32]) -> (r: Option<u16>)
        requires
            self.wf(),
        ensures
            r == self@.owner_slot(*owner),
    {
        let max: usize = self.params.max_accounts as usize;
        let ghost p = |i: int| self@.owned_by(i, *owner);
        let mut i: usize = 0;
        while i < max
            invariant
                self.wf(),
                i <= max,
                max == self@.params.max_accounts,
                p == (|i: int| self@.owned_by(i, *owner)),
                first_where(0, max as int, p) == first_where(i as int, max as int, p),
            decreases max - i,
        {
            if self.is_used(i) && same_array(&self.accounts[i].owner, owner) {
                assert(p(i as int));
                return Some(i as u16);
            }
            assert(!p(i as int));
            i = i + 1;
        }
        None
    }

    /// Deposit for a user. Gives the slot, and whether it is new.
    pub fn take_deposit(&mut self, user: &Pubkey, amount: u64, now: u64) -> (r: Result<(u16, bool), PercolatorError>)
        requires
            old(self).wf(),
        ensures
            final(self).wf(),
            yields(old(self)@.take_deposit(*user, amount, now), r, final(self)@),
    {
        let px: u64 = self.last_oracle_price;
        match self.find_owner(&user.bytes) {
            Some(i) => {
                match self.deposit_not_atomic(i, amount as u128, px, now) {
                    Ok(x) => x,
                    Err(_) => {
                        return Err(PercolatorError::EngineError);
                    },
                };
                Ok((i, false))
            },
            None => {
                let head: u16 = self.free_head;
                if head == NIL_SLOT {
                    return Err(PercolatorError::SlabFull);
                }
                match self.deposit_not_atomic(head, amount as u128, px, now) {
                    Ok(x) => x,
                    Err(_) => {
                        return Err(PercolatorError::EngineError);
                    },
                };
                match self.set_owner(head, user.bytes) {
                    Ok(x) => x,
                    Err(_) => {
                        return Err(PercolatorError::EngineError);
                    },
                };
                Ok((head, true))
            },
        }
    }

    /// Withdraw for a user.
    pub fn give_withdrawal(&mut self, user: &Pubkey, amount: u64, now: u64) -> (r: Result<(), PercolatorError>)
        requires
            old(self).wf(),
        ensures
            final(self).wf(),
            yields_unit(old(self)@.give_withdrawal(*user, amount, now), r, final(self)@),
    {
        let px: u64 = self.last_oracle_price;
        let h_min: u64 = self.params.h_min;
        let h_max: u64 = self.params.h_max;
        let i: u16 = self.find_owner(&user.bytes).ok_or(PercolatorError::EngineError)?;
        match self.withdraw_not_atomic(i, amount as u128, px, now, 0, h_min, h_max) {
            Ok(x) => x,
            Err(_) => {
                return Err(PercolatorError::EngineError);
            },
        };
        Ok(())
    }

    /// Fund the protocol LP.
    pub fn fund_lp(&mut self, amount: u64, now: u64) -> (r: Result<(), PercolatorError>)
        requires
            old(self).wf(),
        ensures
            final(self).wf(),
            yields_unit(old(self)@.fund_lp(amount, now), r, final(self)@),
    {
        if self.is_used(PROTOCOL_LP_SLOT as usize) {
            return Err(PercolatorError::LpAlreadyBootstrapped);
        }
        if self.free_head != PROTOCOL_LP_SLOT {
            return Err(PercolatorError::LpAlreadyBootstrapped);
        }
        let px: u64 = self.last_oracle_price;
        match self.deposit_not_atomic(PROTOCOL_LP_SLOT, amount as u128, px, now) {
            Ok(x) => x,
            Err(_) => {
                return Err(PercolatorError::EngineError);
            },
        };
        let mut lp: Account = self.accounts[PROTOCOL_LP_SLOT as usize];
        lp.kind = Account::KIND_LP;
        lp.owner = PROTOCOL_LP_OWNER_SENTINEL;
        self.accounts.set(PROTOCOL_LP_SLOT as usize, lp);
        Ok(())
    }

    /// An order of a user against the protocol LP.
    pub fn place_order(
        &mut self,
        user: &Pubkey,
        side: Side,
        size: u64,
        price: u64,
        now: u64,
    ) -> (r: Result<(), PercolatorError>)
        requires
            old(self).wf(),
        ensures
            final(self).wf(),
            yields_unit(old(self)@.place_order(*user, side, size, price, now), r, final(self)@),
    {
        proof {
            assert forall|i: u16| #[trigger] self@.owned_by(i as int, user.bytes) implies i < MAX_ACCOUNTS by {}
            first_where_is_first(0, self@.params.max_accounts as int, |i: int| self@.owned_by(i, user.bytes));
        }
        let i: u16 = self.find_owner(&user.bytes).ok_or(PercolatorError::EngineError)?;
        let lp: usize = PROTOCOL_LP_SLOT as usize;
        if !self.is_used(lp) || !same_array(&self.accounts[lp].owner, &PROTOCOL_LP_OWNER_SENTINEL) {
            return Err(PercolatorError::LpNotBootstrapped);
        }
        let pos: i128 = self.effective_pos_q(i as usize);
        let opens: bool = pos == 0 || (pos > 0) == (side == Side::Long) || size as u128 > abs_i128(pos);
        if opens && self.get_side_mode(side) != SideMode::Normal {
            return Err(PercolatorError::DrainOnly);
        }
        let h_min: u64 = self.params.h_min;
        let h_max: u64 = self.params.h_max;
        let (buyer, seller): (u16, u16) = match side {
            Side::Long => (i, PROTOCOL_LP_SLOT),
            Side::Short => (PROTOCOL_LP_SLOT, i),
        };
        match self.execute_trade_not_atomic(buyer, seller, price, now, size as i128, price, 0, h_min, h_max) {
            Ok(x) => x,
            Err(_) => {
                return Err(PercolatorError::EngineError);
            },
        };
        Ok(())
    }

    /// Liquidate an account for a bounty.
    pub fn seize(&mut self, victim: u16, price: u64, now: u64) -> (r: Result<u128, PercolatorError>)
        requires
            old(self).wf(),
        ensures
            final(self).wf(),
            yields(old(self)@.seize(victim, price, now), r, final(self)@),
    {
        if !self.is_used(victim as usize) {
            return Err(PercolatorError::InvalidVictimSlot);
        }
        let before: u128 = self.accounts[victim as usize].capital.v;
        let h_min: u64 = self.params.h_min;
        let h_max: u64 = self.params.h_max;
        let did: bool = match self.liquidate_at_oracle_not_atomic(victim, now, price, LiquidationPolicy::FullClose, 0, h_min, h_max) {
            Ok(x) => x,
            Err(_) => {
                return Err(PercolatorError::EngineError);
            },
        };
        if !did {
            return Err(PercolatorError::AccountHealthy);
        }
        let mut a: Account = self.accounts[victim as usize];
        let left: u128 = a.capital.v;
        let target: u128 = saturating_mul_u128(before, LIQ_BOUNTY_BPS) / 10_000;
        let bounty: u128 = if target < left {
            target
        } else {
            left
        };
        if bounty > self.c_tot.v || bounty > self.vault.v {
            return Err(PercolatorError::EngineError);
        }
        a.capital = U128 { v: left - bounty };
        self.accounts.set(victim as usize, a);
        self.c_tot = U128 { v: self.c_tot.v - bounty };
        self.vault = U128 { v: self.vault.v - bounty };
        Ok(bounty)
    }

    /// Accrue the market.
    fn crank_funding(&mut self, now: u64) -> (r: Result<(), PercolatorError>)
        requires
            old(self).wf(),
        ensures
            final(self).wf(),
            yields_unit(old(self)@.crank_funding(now), r, final(self)@),
    {
        if now <= self.last_market_slot {
            return Err(PercolatorError::NothingToDo);
        }
        let px: u64 = self.last_oracle_price;
        match self.accrue_market_to(now, px, 0) {
            Ok(x) => x,
            Err(_) => {
                return Err(PercolatorError::EngineError);
            },
        };
        self.current_slot = now;
        self.last_crank_slot = now;
        Ok(())
    }

    /// Whether a crank may reclaim the slot.
    pub(crate) fn may_reclaim(&self, i: usize) -> (r: bool)
        requires
            self.wf(),
            i < MAX_ACCOUNTS,
        ensures
            r == self@.reclaimable(i as int),
    {
        if !self.is_used(i) {
            return false;
        }
        let a: Account = self.accounts[i];
        a.position_basis_q == 0 && a.pnl == 0 && a.reserved_pnl == 0 && a.sched_present == 0 && a.pending_present == 0
            && a.capital.v < self.params.min_initial_deposit.v
    }

    /// Reclaim dust.
    fn crank_gc(&mut self, now: u64) -> (r: Result<(), PercolatorError>)
        requires
            old(self).wf(),
        ensures
            final(self).wf(),
            yields_unit(old(self)@.crank_gc(now), r, final(self)@),
    {
        let max: usize = self.params.max_accounts as usize;
        let steps: usize = if max < GC_CLOSE_BUDGET as usize {
            max
        } else {
            GC_CLOSE_BUDGET as usize
        };
        let mut cursor: usize = self.gc_cursor as usize;
        let mut count: u32 = 0;
        let mut k: usize = 0;
        let ghost s0 = self@;
        while k < steps
            invariant
                self.wf(),
                k <= steps <= 32,
                0 < max <= MAX_ACCOUNTS,
                cursor <= u16::MAX,
                0 < k ==> cursor < max,
                count <= k,
                s0.sweep(s0.gc_cursor as int, steps as nat, max as int, now, 0) == self@.sweep(
                    cursor as int,
                    (steps - k) as nat,
                    max as int,
                    now,
                    count as int,
                ),
            decreases steps - k,
        {
            cursor = (cursor + 1) % max;
            k = k + 1;
            if cursor != PROTOCOL_LP_SLOT as usize && self.may_reclaim(cursor) {
                if self.reclaim_empty_account_not_atomic(cursor as u16, now).is_ok() {
                    count = count + 1;
                }
            }
        }
        self.gc_cursor = cursor as u16;
        if count == 0 {
            return Err(PercolatorError::NothingToDo);
        }
        Ok(())
    }

    /// The slot on which a reset crank settles.
    fn find_anchor(&self) -> (r: Option<u16>)
        requires
            self.wf(),
        ensures
            r == self@.anchor(),
    {
        if self.is_used(PROTOCOL_LP_SLOT as usize) {
            return Some(PROTOCOL_LP_SLOT);
        }
        let max: usize = self.params.max_accounts as usize;
        let ghost p = |i: int| self@.in_use(i);
        let mut i: usize = 0;
        while i < max
            invariant
                self.wf(),
                i <= max,
                max == self@.params.max_accounts,
                p == (|i: int| self@.in_use(i)),
                first_where(0, max as int, p) == first_where(i as int, max as int, p),
            decreases max - i,
        {
            if self.is_used(i) {
                assert(p(i as int));
                return Some(i as u16);
            }
            assert(!p(i as int));
            i = i + 1;
        }
        None
    }

    /// Settle one account to advance the side modes.
    fn crank_adl_reset(&mut self, now: u64) -> (r: Result<(), PercolatorError>)
        requires
            old(self).wf(),
        ensures
            final(self).wf(),
            yields_unit(old(self)@.crank_adl_reset(now), r, final(self)@),
    {
        let long: SideMode = self.side_mode_long;
        let short: SideMode = self.side_mode_short;
        let i: u16 = self.find_anchor().ok_or(PercolatorError::NothingToDo)?;
        let px: u64 = self.last_oracle_price;
        let h_min: u64 = self.params.h_min;
        let h_max: u64 = self.params.h_max;
        match self.settle_account_not_atomic(i, px, now, 0, h_min, h_max) {
            Ok(x) => x,
            Err(_) => {
                return Err(PercolatorError::EngineError);
            },
        };
        if self.side_mode_long == long && self.side_mode_short == short {
            return Err(PercolatorError::NothingToDo);
        }
        Ok(())
    }

    /// Take the crank bounty.
    fn pay_crank(&mut self) -> (r: Result<u64, PercolatorError>)
        requires
            old(self).wf(),
        ensures
            final(self).wf(),
            yields(old(self)@.pay_crank(), r, final(self)@),
    {
        let ins: u128 = self.insurance_fund.balance.v;
        let floor: u128 = self.params.insurance_floor.v;
        let spare: u128 = ins.saturating_sub(floor);
        let pay: u64 = if spare < CRANK_BOUNTY as u128 {
            spare as u64
        } else {
            CRANK_BOUNTY
        };
        if pay as u128 > self.vault.v {
            return Err(PercolatorError::EngineError);
        }
        self.insurance_fund.balance = U128 { v: ins - pay as u128 };
        self.vault = U128 { v: self.vault.v - pay as u128 };
        Ok(pay)
    }

    /// Do the maintenance work of a kind, and pay for it.
    pub fn crank_for(&mut self, kind: CrankKind, now: u64) -> (r: Result<u64, PercolatorError>)
        requires
            old(self).wf(),
        ensures
            final(self).wf(),
            yields(old(self)@.crank_for(kind, now), r, final(self)@),
    {
        match kind {
            CrankKind::Funding => {
                self.crank_funding(now)?;
            },
            CrankKind::Gc => {
                self.crank_gc(now)?;
            },
            CrankKind::AdlReset => {
                self.crank_adl_reset(now)?;
            },
        }
        self.pay_crank()
    }
}

} // verus!
