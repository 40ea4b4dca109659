//! The keeper: which instruction a market needs next.

pub mod laws;
pub mod strategy;
