[package]
name = "clustodian"
version = "0.1.0"
edition = "2021"
publish = false

[dependencies]
etcd-client = { version = "*", features = ["tls"] }
serde = { version = "1", features = ["derive"] }
serde_json = "1"
tokio = { version = "1", features = ["full"] }
