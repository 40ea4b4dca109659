//! A market in order: what holds of every engine that operations lead to.

use vstd::prelude::*;
use crate::constants::MAX_VAULT_TVL;
use crate::engine::interest_laws::fresh_interest_is_backed;
use crate::engine::laws::fresh_market_has_books;
use crate::engine::losses::loss_paid;
use crate::model::{params_valid, EngineState};
use crate::types::RiskParams;

verus! {

impl EngineState {
    /// The books agree with the accounts, the vault covers what is owed and holds no
    /// more than it may, both sides have the same open interest and positions back it,
    /// no account owes while it has capital, and the parameters are valid.
    pub open spec fn in_order(self) -> bool {
        &&& self.books()
        &&& self.conserved()
        &&& self.vault.v <= MAX_VAULT_TVL
        &&& self.oi_balanced()
        &&& self.interest_backed()
        &&& self.losses_paid()
        &&& params_valid(self.params)
    }
}

/// A new market is in order.
pub proof fn fresh_market_is_in_order(s: EngineState, p: RiskParams, slot: u64, price: u64)
    requires
        s.is_fresh(p, slot, price),
        s.wf(),
    ensures
        s.in_order(),
{
    fresh_market_has_books(s, p, slot, price);
    fresh_interest_is_backed(s, p, slot, price);
    assert forall|j: int| 0 <= j < s.accounts.len() implies loss_paid(#[trigger] s.accounts[j]) by {
        assert(s.accounts[j].is_blank(0));
    }
}

} // verus!
