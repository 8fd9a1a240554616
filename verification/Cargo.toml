[package]
name = "graph_ingest"
version = "0.1.0"
edition = "2021"
publish = false

[dependencies]
uuid = { version = "1", features = ["v5", "serde"] }
url = "2"
serde = { version = "1", features = ["derive"] }
serde_json = "1"
tokio = { version = "1", features = ["rt-multi-thread", "macros", "sync", "time"] }
futures = "0.3"
actix-web = { version = "4", default-features = false, features = ["macros"] }
scylla = "0.7"
rust-s3 = { version = "0.33", default-features = false, features = ["tokio-rustls-tls"] }
config = { version = "0.13", default-features = false }
dotenv = "0.15"
color-eyre = "0.6"
eyre = "0.6"
tracing = "0.1"
tracing-subscriber = { version = "0.3", features = ["env-filter", "json"] }
num_cpus = "1"
