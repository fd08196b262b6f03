[package]
name = "evm"
version = "0.1.0"
edition = "2021"
publish = false

[dependencies]
alloy = { version = "1", default-features = false, features = ["std", "sol-types", "network", "providers", "provider-http", "rpc-types"] }
rust_decimal = "1"
petgraph = { version = "0.8", default-features = false, features = ["graphmap", "std"] }
serde = { version = "1", features = ["derive"] }
serde_json = "1"
anyhow = "1"
tokio = { version = "1", features = ["rt-multi-thread", "sync", "time", "macros"] }
reqwest = { version = "0.12", default-features = false, features = ["json"] }
futures-util = "0.3"
bytes = "1"
