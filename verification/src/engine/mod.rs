//! The operations of the engine. Each file holds a group of rules twice: as
//! functions of the model, and as code that is proved to follow them.

pub mod accounts;
pub mod balances;
pub mod books;
pub mod equity;
pub mod free_list;
pub mod guarantees;
pub mod interest_laws;
pub mod laws;
pub mod ledger_laws;
pub mod liquidation;
pub mod liquidation_laws;
pub mod losses;
pub mod margin_laws;
pub mod market;
pub mod open_interest;
pub mod order;
pub mod payouts;
pub mod positions;
pub mod reserve;
pub mod resolution;
pub mod settlement;
pub mod side_laws;
pub mod slots;
pub mod trade;
pub mod worth;
