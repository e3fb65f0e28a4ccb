[package]
name = "helix"
version = "0.1.0"
edition = "2021"
publish = false

[dependencies]
aes-gcm = "=0.10.3"
anyhow = "=1.0.104"
argon2 = { version = "=0.5.3", features = ["std"] }
bincode = "=1.3.3"
blake3 = "=1.8.7"
bs58 = "=0.5.1"
hex = "=0.4.3"
ml-dsa = "=0.1.2"
ml-kem = { version = "=0.3.4", features = ["getrandom"] }
rand = "=0.8.8"
rand_core = "=0.10.1"
serde = { version = "=1.0.229", features = ["derive"] }
serde_json = "=1.0.154"
slh-dsa = "0.2.0-rc.0"
thiserror = "=2.0.21"
zeroize = "=1.9.1"
