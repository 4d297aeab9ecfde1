[package]
name = "niropok_pq_sidechain"
version = "0.1.0"
edition = "2021"
publish = false

[dependencies]
sha3 = "*"
hex = "*"
rand = "*"
crystals-dilithium = "*"
chrono = "*"
rs_merkle = "*"
serde = { version = "*", features = ["derive"] }
serde_json = "*"
bincode = "1"
k256 = "*"
aes = "*"
ctr = "*"
sha2 = "*"
rand_core = "*"

[dev-dependencies]
