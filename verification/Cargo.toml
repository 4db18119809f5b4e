[package]
name = "dipper"
version = "0.1.0"
edition = "2021"
publish = false

[dependencies]
alloy-contract = { version = "=2.5.0", default-features = false }
alloy-primitives = { version = "=1.7.3", features = ["getrandom"] }
alloy-provider = { version = "=2.5.0", default-features = false, features = ["reqwest"] }
alloy-rpc-types-eth = { version = "=2.5.0", default-features = false }
alloy-signer-local = { version = "=2.5.0", default-features = false, features = ["keystore"] }
alloy-sol-types = { version = "=1.7.3" }
anyhow = "1"
clap = { version = "4", default-features = false, features = ["std", "help", "usage", "error-context", "derive"] }
futures = "0.3"
hex = "=0.4.3"
idna_adapter = "=1.0.0"
nectar-contracts = "=0.4.0"
nectar-postage = "=0.4.0"
nectar-postage-issuer = "=0.4.0"
nectar-postage-usage = { version = "=0.4.0", features = ["seal"] }
nectar-primitives = "=0.4.0"
prost = "0.13"
rpassword = "7"
serde_with = { version = "=3.12.0", default-features = false }
thiserror = "2"
tokio = { version = "1", features = ["rt-multi-thread", "macros", "sync", "time"] }
tokio-stream = "0.1"
tonic = { version = "0.13", default-features = false, features = ["channel", "codegen", "prost"] }
