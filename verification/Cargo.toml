[package]
name = "uattestation"
version = "0.1.0"
edition = "2021"
publish = false

[dependencies]
chrono = { version = "=0.4.45", features = ["serde"] }
config = "=0.10.1"
glob = "=0.3.4"
serde = { version = "=1.0.229", features = ["derive"] }
serde_json = "=1.0.154"
jsonwebtoken = "=7.2.0"
actix-web = "=3.3.3"
actix-service = "=1.0.6"
actix-rt = "=1.1.1"
actix-cors = "=0.5.4"
actix-casbin-auth = "=0.4.4"
casbin = { version = "=2.20.0", default-features = false, features = ["runtime-async-std", "incremental", "cached"] }
etcd-rs = "=0.2.2"
tokio = { version = "=0.2.25", features = ["rt-threaded"] }
futures = "=0.3.34"
log = "=0.4.35"
lazy_static = "=1.5.1"
