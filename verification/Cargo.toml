[package]
name = "peer_manager"
version = "0.1.0"
edition = "2021"
publish = false

[dependencies]
smallvec = "1.6"
ethereum-types = "0.12"
libp2p = { version = "0.40", default-features = false, features = ["identify"] }
discv5 = "0.1.0-beta.11"
futures = "0.3"
tokio = { version = "1", features = ["time", "rt"] }
slog = "2"
