[package]
name = "harmonic-scheduler"
version = "0.1.0"
edition = "2021"
publish = false

[dependencies]
agave-logger = { version = "=4.0.2", features = ["agave-unstable-api"] }
agave-scheduler-bindings = "=4.0.2"
agave-scheduling-utils = { version = "=4.0.2", features = ["agave-unstable-api"] }
agave-transaction-view = "=4.0.2"
anyhow = "=1.0.104"
arc-swap = "=1.9.3"
bytes = "=1.12.1"
clap = { version = "=4.6.7", features = ["derive"] }
indexmap = "=2.14.2"
jsonrpc-core = "=18.0.0"
jsonrpc-core-client = { version = "=18.0.0", features = ["ipc"] }
log = "=0.4.35"
prost-types = "=0.14.4"
rtrb = "=0.3.6"
rts-alloc = "=2.0.0"
rustc-hash = "=2.1.3"
shaq = "=1.0.2"
smallvec = "=1.16.4"
solana-cluster-type = "=3.1.0"
solana-hash = "=4.2.0"
solana-keypair = "=3.1.2"
solana-pubkey = { version = "=4.1.0", features = ["serde"] }
solana-transaction = { version = "=3.1.0", features = ["bincode"] }
tokio = { version = "=1.54.1", features = ["full"] }
tokio-stream = "=0.1.19"
tonic = { version = "=0.14.9", features = ["tls-ring", "tls-webpki-roots"] }

[dev-dependencies]
bincode = "=1.3.3"
rand = "=0.9.5"
rand_chacha = "=0.9.0"
tempfile = "3"
