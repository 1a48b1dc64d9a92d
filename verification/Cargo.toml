[package]
name = "snail"
version = "0.1.0"
edition = "2021"
publish = false

[dependencies]
argon2 = "0.5"
async-trait = "0.1"
base64 = "0.22"
blake2 = "0.10"
chacha20poly1305 = "0.10"
ed25519-dalek = "2"
governor = "0.10"
hickory-resolver = { version = "*", features = ["dnssec-ring"] }
psl = "2"
rsa = { version = "0.9", features = ["sha2"] }
rustls = "0.23"
rustls-pemfile = "2"
rustls-webpki = "0.103"
sha2 = "0.10"
thiserror = "2"
tokio = { version = "1", features = ["net", "io-util", "time", "rt", "macros"] }
tokio-rustls = "0.26"
tracing = "0.1"
webpki-roots = "1"
x509-cert = "0.2"
zeroize = { version = "1", features = ["zeroize_derive"] }

[dev-dependencies]
rand_core = { version = "0.6", features = ["getrandom"] }
rcgen = "0.13"
