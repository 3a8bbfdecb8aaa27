[package]
name = "reth_components"
version = "0.1.0"
edition = "2021"
publish = false

[dependencies]
alloy-primitives = "1"
alloy-rpc-types-eth = { version = "*", default-features = false, features = ["std", "serde"] }
bytes = "1"
clap = { version = "4", features = ["derive"] }
parking_lot = "0.12"
reth-codecs = { version = "=0.1.1", default-features = false, features = ["std", "alloy"] }
reth-primitives-traits = { version = "=0.1.1", default-features = false, features = ["std", "reth-codec"] }
