[package]
name = "threshold_sharing"
version = "0.1.0"
edition = "2021"
publish = false

[dependencies]
blake3 = { version = "1", features = ["pure"] }
chrono = { version = "0.4", features = ["serde"] }
curve25519-dalek = { version = "4", features = ["rand_core", "digest", "zeroize"] }
digest = "0.10"
env_logger = "0.10"
generic-array = "0.14"
hex = "0.4"
log = "0.4"
rand = "0.8"
rayon = "1"
serde = { version = "1", features = ["derive"] }
thiserror = "1"
typenum = "1"
zeroize = "1"
