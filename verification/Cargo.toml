[package]
name = "rust_smpp_sim"
version = "0.1.0"
edition = "2021"
publish = false

[dependencies]
rusmpp = { version = "=0.2.3", features = ["tokio-codec"] }
bytes = "=1.12.1"
tokio-util = { version = "=0.7.20", features = ["codec"] }
regex = "=1.13.1"
dashmap = "=6.2.1"
uuid = { version = "=1.29.0", features = ["v4"] }
rand = "=0.9.5"
chrono = "=0.4.45"
hex = "=0.4.3"
tokio = { version = "1", features = ["full"] }
futures = "0.3"
tracing = "0.1"
tracing-subscriber = { version = "0.3", features = ["env-filter"] }
config = { version = "0.15", default-features = false, features = ["toml"] }
serde = { version = "1", features = ["derive"] }
serde_json = "1"
dotenvy = "0.15"
actix-web = { version = "4", default-features = false, features = ["macros"] }
actix-files = "0.6"
actix-rt = "2"
async-stream = "0.3"
parking_lot = "0.12"
