[package]
name = "fund_admin"
version = "0.1.0"
edition = "2021"
publish = false

[dependencies]
cosmwasm-std = "2"
cw-utils = "2"
serde = { version = "1", features = ["derive"] }
