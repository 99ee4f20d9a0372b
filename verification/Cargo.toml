[package]
name = "verax"
version = "0.1.0"
edition = "2021"
publish = false

[dependencies]
blake3 = "=1.8.7"
sha2 = "=0.10.9"
ed25519-dalek = { version = "=2.2.0", features = ["digest", "rand_core"] }
ml-dsa = "=0.1.2"
chacha20poly1305 = "=0.10.1"
hpke = { version = "=0.15.1", features = ["aes", "hkdfsha2"] }
rand_core = { version = "=0.6.4", features = ["getrandom"] }
zeroize = "=1.9.1"
getrandom = "=0.2.17"
multibase = "=0.9.3"
hex = "=0.4.3"
anyhow = "=1.0.104"
clap = { version = "=4.6.7", features = ["derive"] }
serde = { version = "=1.0.229", features = ["derive"] }
serde_json = "=1.0.154"
chrono = "=0.4.45"
toml = "=1.1.8"
nu-ansi-term = "=0.50.3"
