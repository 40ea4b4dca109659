//! The program around the engine: accounts, instructions and their processing.

pub mod acceptance_laws;
pub mod checks;
pub mod error;
pub mod instruction;
pub mod laws;
pub mod operations;
pub mod plain_laws;
pub mod processor;
pub mod state;
