[package]
name = "wager_ledger"
version = "0.1.0"
edition = "2021"
publish = false

[dependencies]
itertools = "0.10"
shellwords = "1"
serenity = { version = "0.11", default-features = false, features = ["builder", "cache", "client", "gateway", "http", "model", "utils", "rustls_backend"] }
