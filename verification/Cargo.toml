[package]
name = "p2p_handshake"
version = "0.1.0"
edition = "2021"
publish = false

[dependencies]
bitcoin = "=0.32.102"
bytes = "=1.12.1"
clap = { version = "=4.6.7", features = ["derive"] }
futures = "=0.3.34"
secp256k1 = { version = "=0.33.1", features = ["rand"] }
tokio = { version = "=1.53.2", features = ["full"] }
tokio-util = { version = "=0.7.19", features = ["codec"] }
tracing = "=0.1.44"
tracing-subscriber = { version = "=0.3.23", features = ["env-filter"] }

[dev-dependencies]
alloy-rlp = "=0.3.16"
