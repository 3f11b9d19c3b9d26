[package]
name = "sqns"
version = "0.1.0"
edition = "2021"
publish = false

[dependencies]
bs58 = "0.5"
clap = { version = "4", features = ["derive"] }
dirs = "6"
ed25519-dalek = { version = "2", features = ["rand_core"] }
hex = "0.4"
hickory-resolver = { version = "0.26", features = ["dnssec-ring"] }
libc = "0.2"
quinn = "0.11"
rand = "0.9"
rand_core = { version = "0.6", features = ["getrandom"] }
serde = { version = "1", features = ["derive"] }
thiserror = "2"
tokio = { version = "1", features = ["full"] }
toml = "*"
tracing = "0.1"
tracing-subscriber = { version = "0.3", features = ["env-filter"] }
