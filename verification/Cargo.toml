[package]
name = "engine_bridge"
version = "0.1.0"
edition = "2021"
publish = false

[dependencies]
smoltcp = "0.11"
wildmatch = "2"
crossbeam-channel = "0.5"
smallvec = "1"
rustc-hash = "1"
parking_lot = "0.12"
tokio = { version = "1", features = ["rt-multi-thread", "time", "sync", "macros"] }
once_cell = "1"
libc = "0.2"
anyhow = "1"
thiserror = "1"
