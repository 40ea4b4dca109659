[package]
name = "percolator"
version = "0.1.0"
edition = "2021"
publish = false

[dependencies]
solana-program = "2.1"
spl-token = { version = "7.0", features = ["no-entrypoint"] }
thiserror = "1"
tokio = { version = "1", features = ["rt", "macros", "rt-multi-thread"] }
