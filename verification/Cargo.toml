[package]
name = "tusk"
version = "0.1.0"
edition = "2021"
publish = false

[dependencies]
serde_json = { version = "1", features = ["preserve_order"] }
indexmap = "2"
sha1_smol = "1"
zip = { version = "2", default-features = false, features = ["deflate"] }
anyhow = "1"
clap = { version = "4", features = ["derive"] }
indicatif = "0.17"
tokio = { version = "1", features = ["rt-multi-thread", "macros"] }
reqwest = { version = "0.12", default-features = false, features = ["rustls-tls", "json"] }
curl = "0.4"
async-trait = "0.1"
parking_lot = "0.12"
thiserror = "1"
