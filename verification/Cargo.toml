[package]
name = "smolvm_cluster"
version = "0.1.0"
edition = "2021"
publish = false

[dependencies]
anyhow = "1"
axum = "*"
blake3 = "1"
chrono = "0.4"
clap = { version = "4", features = ["derive"] }
futures-lite = "2"
iroh = "*"
iroh-gossip = "*"
reqwest = { version = "*", default-features = false }
rustls = { version = "0.23", default-features = false, features = ["ring", "std", "tls12"] }
rustls-pki-types = "1"
serde = { version = "1", features = ["derive"] }
serde_json = "1"
tokio = { version = "1", features = ["full"] }
tokio-rustls = { version = "0.26", default-features = false, features = ["ring", "tls12"] }
tracing = "0.1"
