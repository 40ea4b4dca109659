//! The keeper's decision, from a snapshot of a market to the next action.

use vstd::prelude::*;
use crate::address::Pubkey;
use crate::bytes::from_twos;
use crate::constants::{MAX_ACCOUNTS, MAX_POSITION_ABS_Q, POS_SCALE};
use crate::engine::accounts::clamp_i128;
use crate::engine::guarantees::settling_resets_drained_side;
use crate::layout::{engine_of, is_engine};
use crate::model::{basis_ok, EngineState};
use crate::program::error::PercolatorError;
use crate::program::operations::{first_where, first_where_is_first};
use crate::types::{Account, RiskEngine, Side, SideMode};
use crate::wide_math::{abs_i128, abs_of, min_of, saturating_mul_u128};

verus! {

/// One slab and its price feed, as they were at `now_slot`.
#[derive(Clone, Debug)]
pub struct SlabSnapshot {
    pub slab: Pubkey,
    pub now_slot: u64,
    /// The image of the engine.
    pub engine_bytes: Vec<u8>,
    /// The published price, or none where it is stale.
    pub oracle_price: Option<u64>,
    /// The slot in which it was published.
    pub oracle_last_update_slot: u64,
    /// The age at which a price is stale.
    pub stale_slots: u64,
    /// The age at which funding should be accrued.
    pub funding_staleness_slots: u64,
}

/// What to do next.
#[derive(Clone, Copy, Debug, PartialEq, Eq, Structural)]
pub enum Action {
    /// Update the feed, before anything that needs a price.
    RefreshOracle,
    /// Liquidate an account. The estimate is for weighing against the fee of the
    /// transaction.
    Liquidate { victim_slot: u16, estimated_bounty: u128 },
    /// Accrue the market.
    CrankFunding,
    /// Advance the side modes.
    CrankAdlReset,
    /// Reclaim accounts that hold dust.
    CrankGc,
    Skip,
}

/// The bounty of a liquidation, in basis points of the capital.
pub const LIQ_BOUNTY_BPS: u128 = 50;

/// Bounties below this are not worth a transaction.
pub const MIN_BOUNTY_THRESHOLD: u128 = 1_000;

/// The signed reading of 128 bits.
pub open spec fn signed_128(v: int) -> int {
    if v > i128::MAX {
        v - u128::MAX - 1
    } else {
        v
    }
}

/// The loss that a position made since the price was `last`; none where it
/// gained, or where there was no price.
pub open spec fn marked_loss(basis: int, last: int, price: int) -> int {
    let reference = if basis > 0 {
        last
    } else {
        price
    };
    let live = if basis > 0 {
        price
    } else {
        last
    };
    if last > 0 && live < reference {
        abs_of(basis) * (reference - live) / (POS_SCALE as int)
    } else {
        0
    }
}

/// The maintenance margin that a position asks at a price.
pub open spec fn margin_guess(basis: int, price: int, mm_bps: int) -> int {
    (abs_of(basis) * price / (POS_SCALE as int)) * mm_bps / 10_000
}

/// What a liquidation of an account with this capital should pay.
pub open spec fn bounty_guess(capital: u128) -> int {
    min_of(capital * LIQ_BOUNTY_BPS, u128::MAX as int) / 10_000
}

impl EngineState {
    /// Account `i` looks liquidatable, and worth it: what its capital and PnL come to
    /// after the loss since the last accrual is less than its maintenance margin, and
    /// the bounty is not too small.
    pub open spec fn looks_underwater(self, i: int, price: u64) -> bool {
        let a = self.accounts[i];
        let basis = a.position_basis_q as int;
        let equity = clamp_i128(signed_128(a.capital.v as int) + a.pnl);
        &&& self.in_use(i)
        &&& basis != 0
        &&& clamp_i128(equity - marked_loss(basis, self.last_oracle_price as int, price as int)) < margin_guess(
            basis,
            price as int,
            self.params.maintenance_margin_bps as int,
        )
        &&& bounty_guess(a.capital.v) >= MIN_BOUNTY_THRESHOLD
    }

    /// A side is to be drained and is empty.
    pub open spec fn reset_is_due(self) -> bool {
        ||| self.side_mode_long == SideMode::DrainOnly && self.oi_eff_long_q == 0
        ||| self.side_mode_short == SideMode::DrainOnly && self.oi_eff_short_q == 0
    }

    /// The first account, other than the LP's, that looks liquidatable.
    pub open spec fn liquidation_target(self, price: u64) -> Option<u16> {
        first_where(1, self.params.max_accounts as int, |i: int| self.looks_underwater(i, price))
    }

    /// The first slot, other than the LP's, that may be reclaimed.
    pub open spec fn dust_slot(self) -> Option<u16> {
        first_where(1, self.params.max_accounts as int, |i: int| self.reclaimable(i))
    }
}

/// The snapshot has no price that is fresh.
pub open spec fn price_is_stale(snap: SlabSnapshot) -> bool {
    snap.oracle_price is None || snap.now_slot - snap.oracle_last_update_slot > snap.stale_slots
}

/// The action for an engine at a price: liquidate, else accrue, else reset, else
/// reclaim, else nothing.
pub open spec fn action_for(s: EngineState, price: u64, now: u64, funding_staleness: u64) -> Action {
    match s.liquidation_target(price) {
        Some(i) => Action::Liquidate {
            victim_slot: i,
            estimated_bounty: bounty_guess(s.accounts[i as int].capital.v) as u128,
        },
        None => if now - s.last_market_slot > funding_staleness {
            Action::CrankFunding
        } else if s.reset_is_due() {
            Action::CrankAdlReset
        } else if s.dust_slot() is Some {
            Action::CrankGc
        } else {
            Action::Skip
        },
    }
}

/// The action for a snapshot: where the price is stale, refresh it first.
pub open spec fn decision(snap: SlabSnapshot) -> Action {
    if price_is_stale(snap) {
        Action::RefreshOracle
    } else {
        action_for(engine_of(snap.engine_bytes@), snap.oracle_price->0, snap.now_slot, snap.funding_staleness_slots)
    }
}

proof fn lemma_scaled(b: int, x: int)
    requires
        0 <= b <= MAX_POSITION_ABS_Q,
        0 <= x <= u64::MAX,
    ensures
        0 <= b * x <= MAX_POSITION_ABS_Q * u64::MAX,
        MAX_POSITION_ABS_Q * u64::MAX <= u128::MAX,
{
    assert(0 <= b * x <= MAX_POSITION_ABS_Q * u64::MAX) by (nonlinear_arith)
        requires
            0 <= b <= MAX_POSITION_ABS_Q,
            0 <= x <= u64::MAX,
        ;
}

/// The sum between the bounds of `i128`.
fn saturating_sum(a: i128, b: i128) -> (r: i128)
    ensures
        r == clamp_i128(a + b),
{
    match a.checked_add(b) {
        Some(v) => v,
        None => if a > 0 {
            i128::MAX
        } else {
            i128::MIN
        },
    }
}

impl RiskEngine {
    /// Whether an account looks liquidatable, and worth it.
    fn is_underwater(&self, i: usize, price: u64) -> (r: bool)
        requires
            self.wf(),
            i < MAX_ACCOUNTS,
        ensures
            r == self@.looks_underwater(i as int, price),
    {
        if !self.is_used(i) {
            return false;
        }
        let a: Account = self.accounts[i];
        let basis: i128 = a.position_basis_q;
        if basis == 0 {
            return false;
        }
        assert(basis_ok(self@.accounts[i as int]));
        let size: u128 = abs_i128(basis);
        let mm_bps: u64 = self.params.maintenance_margin_bps;
        proof {
            lemma_scaled(size as int, price as int);
        }
        let notional: u128 = size * price as u128 / POS_SCALE;
        proof {
            assert(notional * mm_bps <= MAX_POSITION_ABS_Q * u64::MAX) by (nonlinear_arith)
                requires
                    0 <= notional <= MAX_POSITION_ABS_Q * u64::MAX / 1_000_000,
                    0 <= mm_bps <= 10_000,
                    MAX_POSITION_ABS_Q == 100_000_000_000_000,
                ;
        }
        let margin: u128 = notional * mm_bps as u128 / 10_000;
        let equity: i128 = saturating_sum(from_twos(a.capital.v), a.pnl);
        let last: u64 = self.last_oracle_price;
        let (reference, live): (u64, u64) = if basis > 0 {
            (last, price)
        } else {
            (price, last)
        };
        let loss: u128 = if last > 0 && live < reference {
            proof {
                lemma_scaled(size as int, reference - live);
            }
            size * (reference - live) as u128 / POS_SCALE
        } else {
            0
        };
        if saturating_sum(equity, -(loss as i128)) >= margin as i128 {
            return false;
        }
        saturating_mul_u128(a.capital.v, LIQ_BOUNTY_BPS) / 10_000 >= MIN_BOUNTY_THRESHOLD
    }

    fn find_target(&self, price: u64) -> (r: Option<u16>)
        requires
            self.wf(),
        ensures
            r == self@.liquidation_target(price),
    {
        let max: usize = self.params.max_accounts as usize;
        let ghost p = |i: int| self@.looks_underwater(i, price);
        let mut i: usize = 1;
        while i < max
            invariant
                self.wf(),
                1 <= i,
                max == self@.params.max_accounts,
                p == (|i: int| self@.looks_underwater(i, price)),
                first_where(1, max as int, p) == first_where(i as int, max as int, p),
            decreases max - i,
        {
            if self.is_underwater(i, price) {
                assert(p(i as int));
                return Some(i as u16);
            }
            assert(!p(i as int));
            i = i + 1;
        }
        None
    }

    fn find_dust(&self) -> (r: Option<u16>)
        requires
            self.wf(),
        ensures
            r == self@.dust_slot(),
    {
        let max: usize = self.params.max_accounts as usize;
        let ghost p = |i: int| self@.reclaimable(i);
        let mut i: usize = 1;
        while i < max
            invariant
                self.wf(),
                1 <= i,
                max == self@.params.max_accounts,
                p == (|i: int| self@.reclaimable(i)),
                first_where(1, max as int, p) == first_where(i as int, max as int, p),
            decreases max - i,
        {
            if self.may_reclaim(i) {
                assert(p(i as int));
                return Some(i as u16);
            }
            assert(!p(i as int));
            i = i + 1;
        }
        None
    }

    /// The action for this engine at a price.
    pub fn next_action(&self, price: u64, now: u64, funding_staleness: u64) -> (r: Action)
        requires
            self.wf(),
        ensures
            r == action_for(self@, price, now, funding_staleness),
    {
        proof {
            first_where_is_first(1, self@.params.max_accounts as int, |i: int| self@.looks_underwater(i, price));
        }
        match self.find_target(price) {
            Some(i) => {
                return Action::Liquidate {
                    victim_slot: i,
                    estimated_bounty: saturating_mul_u128(self.accounts[i as usize].capital.v, LIQ_BOUNTY_BPS) / 10_000,
                };
            },
            None => {},
        }
        if now.saturating_sub(self.last_market_slot) > funding_staleness {
            return Action::CrankFunding;
        }
        if self.side_mode_long == SideMode::DrainOnly && self.oi_eff_long_q == 0
            || self.side_mode_short == SideMode::DrainOnly && self.oi_eff_short_q == 0 {
            return Action::CrankAdlReset;
        }
        match self.find_dust() {
            Some(_) => Action::CrankGc,
            None => Action::Skip,
        }
    }
}

/// Decide on one action for a snapshot. The bytes must be the image of an engine,
/// unless the price is stale, when they are not looked at.
pub fn decide(snap: &SlabSnapshot) -> (r: Action)
    requires
        price_is_stale(*snap) || is_engine(snap.engine_bytes@),
    ensures
        r == decision(*snap),
{
    if snap.now_slot.saturating_sub(snap.oracle_last_update_slot) > snap.stale_slots {
        return Action::RefreshOracle;
    }
    match snap.oracle_price {
        None => Action::RefreshOracle,
        Some(price) => match RiskEngine::from_bytes(snap.engine_bytes.as_slice()) {
            Some(e) => e.next_action(price, snap.now_slot, snap.funding_staleness_slots),
            None => {
                assert(false);
                Action::Skip
            },
        },
    }
}

/// Nothing but a refresh is asked for as long as the price is stale.
pub proof fn stale_price_comes_first(snap: SlabSnapshot)
    requires
        price_is_stale(snap),
    ensures
        decision(snap) == Action::RefreshOracle,
{
}

/// A liquidation names a used slot with a position, never the LP's, and its
/// bounty is worth the transaction.
pub proof fn liquidation_is_worthwhile(s: EngineState, price: u64, now: u64, funding_staleness: u64)
    requires
        s.wf(),
    ensures
        match action_for(s, price, now, funding_staleness) {
            Action::Liquidate { victim_slot, estimated_bounty } => {
                &&& 0 < victim_slot < s.params.max_accounts
                &&& s.in_use(victim_slot as int)
                &&& s.accounts[victim_slot as int].position_basis_q != 0
                &&& estimated_bounty >= MIN_BOUNTY_THRESHOLD
            },
            _ => true,
        },
{
    first_where_is_first(1, s.params.max_accounts as int, |i: int| s.looks_underwater(i, price));
}

/// The program never pays more for a liquidation than the keeper expected.
pub proof fn bounty_is_within_estimate(s: EngineState, victim: u16, price: u64, now: u64)
    ensures
        s.seize(victim, price, now) matches Ok((_, bounty)) ==> bounty <= bounty_guess(s.accounts[victim as int].capital.v),
{
}

/// Where the keeper asks for a funding crank, the market has slots to accrue.
pub proof fn funding_crank_has_work(s: EngineState, price: u64, now: u64, funding_staleness: u64)
    requires
        action_for(s, price, now, funding_staleness) == Action::CrankFunding,
    ensures
        s.crank_funding(now) != Err::<EngineState, PercolatorError>(PercolatorError::NothingToDo),
{
}

/// Where the keeper asks for a reset crank and some slot is used, a side has its
/// mode changed, unless the engine refuses to settle.
pub proof fn reset_crank_has_work(s: EngineState, price: u64, now: u64, funding_staleness: u64)
    requires
        s.books(),
        action_for(s, price, now, funding_staleness) == Action::CrankAdlReset,
        s.anchor() is Some,
    ensures
        s.crank_adl_reset(now) != Err::<EngineState, PercolatorError>(PercolatorError::NothingToDo),
{
    let side = if s.side_mode_long == SideMode::DrainOnly && s.oi_eff_long_q == 0 {
        Side::Long
    } else {
        Side::Short
    };
    settling_resets_drained_side(
        s,
        s.anchor()->0,
        s.last_oracle_price,
        now,
        0,
        s.params.h_min,
        s.params.h_max,
        side,
    );
}

/// Where the keeper asks for a reclaiming crank, there is a slot to reclaim, and
/// it is not the LP's.
pub proof fn gc_crank_has_dust(s: EngineState, price: u64, now: u64, funding_staleness: u64)
    requires
        s.wf(),
        action_for(s, price, now, funding_staleness) == Action::CrankGc,
    ensures
        exists|i: int| 0 < i < s.params.max_accounts && #[trigger] s.reclaimable(i),
{
    first_where_is_first(1, s.params.max_accounts as int, |i: int| s.reclaimable(i));
    let i = s.dust_slot()->0 as int;
    assert(s.reclaimable(i));
}

} // verus!
