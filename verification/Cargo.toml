[package]
name = "snapshot_etl"
version = "0.1.0"
edition = "2021"
publish = false

[dependencies]
bs58 = "*"
rusqlite = { version = "*", features = ["bundled"] }
memmap2 = "*"
