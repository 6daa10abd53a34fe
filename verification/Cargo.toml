[package]
name = "pgn_dataset"
version = "0.1.0"
edition = "2021"
publish = false

[dependencies]
shakmaty = "=0.27.3"
sha256 = "=1.6.0"
serde_json = "=1.0.151"
pgn-reader = "=0.26.0"
reqwest = { version = "=0.12.28", default-features = false, features = ["blocking", "rustls-tls"] }
zip = { version = "=8.6.0", default-features = false, features = ["deflate"] }
bytes = "=1.12.1"
clap = { version = "=4.6.7", features = ["derive"] }
rayon = "=1.12.0"
anyhow = "=1.0.104"
