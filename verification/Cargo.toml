[package]
name = "mcap_replay"
version = "0.1.0"
edition = "2021"
publish = false

[dependencies]
mcap = { version = "=0.25.0", default-features = false }
enumset = "=1.1.14"
memmap2 = "=0.9.11"
