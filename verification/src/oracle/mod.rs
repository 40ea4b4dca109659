//! The price oracle: feeds that publish the median of recent prices of a pool.

pub mod error;
pub mod feed_laws;
pub mod instruction;
pub mod laws;
pub mod median;
pub mod price_laws;
pub mod processor;
pub mod state;
