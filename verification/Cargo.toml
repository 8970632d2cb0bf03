[package]
name = "lb"
version = "0.1.0"
edition = "2021"
publish = false

[dependencies]
arc-swap = "1"
axum = "0.7"
bytes = "1"
clap = { version = "4", features = ["derive"] }
crossbeam = "0.8"
dashmap = "6"
libc = "0.2"
notify = "6"
parking_lot = "0.12"
prometheus-client = "0.22"
rustls = { version = "0.23", default-features = false, features = ["ring", "std", "tls12"] }
serde = { version = "1", features = ["derive"] }
serde_json = "1"
smallvec = "1"
thiserror = "1"
tokio = { version = "1", features = ["full"] }
tokio-rustls = { version = "0.26", default-features = false, features = ["ring", "tls12"] }
toml = "0.8"
tracing = "0.1"
tracing-subscriber = { version = "0.3", features = ["env-filter", "json"] }
ureq = { version = "2", default-features = false, features = ["json"] }
webpki-roots = "0.26"
xdpilone = "1"
xxhash-rust = { version = "0.8", features = ["xxh3"] }
