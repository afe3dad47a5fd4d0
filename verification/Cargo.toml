[package]
name = "chain_sync"
version = "0.1.0"
edition = "2021"
rust-version = "1.95"
publish = false

[dependencies]
reqwest = { version = "=0.12.28", default-features = false, features = ["blocking", "rustls-tls"] }
tempfile = "=3.27.0"
zf-zebrachain = "=0.0.14"
aead = { version = "=0.6.0-rc.3", default-features = false }
blake2 = { version = "=0.11.0-rc.3", default-features = false }
block-buffer = { version = "=0.11.0", default-features = false }
chacha20 = { version = "=0.10.0-rc.5", default-features = false }
cipher = { version = "=0.5.0-rc.2", default-features = false }
crypto-common = { version = "=0.2.0-rc.5", default-features = false }
digest = { version = "=0.11.0-rc.4", default-features = false }
hybrid-array = { version = "=0.4.5", default-features = false }
inout = { version = "=0.2.1", default-features = false }
keccak = { version = "=0.2.0-rc.0", default-features = false }
password-hash = { version = "=0.6.0-rc.4", default-features = false }
phc = { version = "=0.6.0-rc.0", default-features = false }
poly1305 = { version = "=0.9.0-rc.3", default-features = false }
sha2 = { version = "=0.11.0-rc.3", default-features = false }
sha3 = { version = "=0.11.0-rc.3", default-features = false }
universal-hash = { version = "=0.6.0-rc.3", default-features = false }
