[package]
name = "cree"
version = "0.1.0"
edition = "2021"
publish = false

[dependencies]
base64 = "0.22"
bytes = "1"
chrono = "0.4"
clap = "4"
curve25519-dalek = "4"
futures = "0.3"
libflate = "2"
rand_core = { version = "0.6", features = ["getrandom"] }
ring = "0.17"
rust-crypto = "0.2"
serde = { version = "1", features = ["derive"] }
tokio = { version = "1", features = ["rt-multi-thread", "net", "io-util", "sync", "time"] }
toml = "0.8"
