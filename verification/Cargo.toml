[package]
name = "lil_poker_mccfr"
version = "0.1.0"
edition = "2021"
publish = false

[dependencies]
rand = { version = "0.8", features = ["small_rng"] }
clap = { version = "4", features = ["derive"] }
serde = { version = "1", features = ["derive"] }
serde_json = "1"
dashmap = "5"
rayon = "1"
tokio = { version = "1", features = ["rt-multi-thread", "macros"] }
reqwest = { version = "0.12", default-features = false, features = ["json", "cookies"] }
tokio-tungstenite = { version = "0.23", default-features = false, features = ["connect", "handshake"] }
futures-util = "0.3"
