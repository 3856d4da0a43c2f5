[package]
name = "freeix"
version = "0.1.0"
edition = "2021"
publish = false

[dependencies]
regex = "1"
hickory-proto = "0.24"
tokio = { version = "1", features = ["full"] }
serde = { version = "1", features = ["derive"] }
toml = "0.8"
thiserror = "1"
directories = "5"
parking_lot = "0.12"
lru = "0.12"
rcgen = { version = "0.13", features = ["x509-parser"] }
time = "0.3"
chrono = "0.4"
rusqlite = { version = "0.31", features = ["bundled"] }
reqwest = { version = "0.12", default-features = false, features = ["rustls-tls"] }
rustls = { version = "0.23", default-features = false, features = ["ring", "std", "tls12", "logging"] }
tokio-rustls = { version = "0.26", default-features = false, features = ["ring", "tls12", "logging"] }
webpki-roots = "0.26"
libloading = "0.8"
bytes = "1"
async-trait = "0.1"
tracing = "0.1"
tracing-subscriber = { version = "0.3", features = ["env-filter"] }
