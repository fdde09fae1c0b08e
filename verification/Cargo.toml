[package]
name = "cggmp21"
version = "0.1.0"
edition = "2021"
publish = false

[dependencies]
generic-ec = { version = "=0.4.5", features = ["curve-secp256k1"] }
generic-ec-zkp = "=0.4.4"
paillier-zk = { version = "=0.4.3", features = ["serde"] }
round-based = { version = "=0.4.1", features = ["derive"] }
digest = "=0.10.7"
sha2 = "=0.10.9"
rand_core = "=0.6.4"
serde = { version = "=1.0.229", features = ["derive"] }
serde_json = "=1.0.154"
hex = "=0.4.3"
thiserror = "=1.0.69"
futures = "=0.3.34"
num-bigint = "=0.4.8"
num-integer = "=0.1.47"

[dev-dependencies]
rand_chacha = "=0.3.1"
