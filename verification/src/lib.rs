//! A verified risk engine for perpetual futures, with the program, oracle and
//! keeper rules that are built around it.

pub mod address;
pub mod bytes;
pub mod constants;
pub mod context;
pub mod engine;
pub mod int128;
pub mod keeper;
pub mod layout;
pub mod model;
pub mod oracle;
pub mod program;
pub mod reachable;
pub mod sorting;
pub mod types;
pub mod wide_math;
