[package]
name = "grotto"
version = "0.9.0"
edition = "2021"
publish = false

[dependencies]
ed25519-dalek = "=2.2.0"
getrandom = "=0.3.4"
libc = "0.2"
mls-rs = "=0.56.0"
mls-rs-core = "=0.27.0"
mls-rs-crypto-awslc = "0.25"
mls-rs-provider-sqlite = { version = "=0.23.0", features = ["sqlcipher-bundled"] }
postcard = { version = "=1.1.3", features = ["use-std"] }
rcgen = "=0.13.2"
rusqlite = "=0.37.0"
rustls = "0.23"
rustls-pemfile = "2"
serde = { version = "1", features = ["derive"] }
sha2 = "=0.10.9"
tokio = { version = "1", features = ["full"] }
tokio-rustls = "0.26"
zeroize = "1"

[dev-dependencies]
tempfile = "3"
