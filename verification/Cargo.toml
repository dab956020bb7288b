[package]
name = "ledger_core"
version = "0.1.0"
edition = "2021"
publish = false

[dependencies]
serde = { version = "*", features = ["derive"] }
csv = "*"
sgmlish = "*"
encoding_rs = "*"
encoding_rs_io = "*"
clap = { version = "*", features = ["derive"] }
