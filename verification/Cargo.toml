[package]
name = "rendezvous_tunnel"
version = "0.1.0"
edition = "2021"
publish = false

[dependencies]
uuid = { version = "*", features = ["v4"] }
anyhow = "*"
async-trait = "*"
redis = { version = "*", features = ["tokio-comp", "connection-manager"] }
serde = { version = "*", features = ["derive"] }
serde_json = "*"
tokio = { version = "*", features = ["rt", "rt-multi-thread", "sync", "time", "macros", "net"] }
rustls = { version = "*", default-features = false, features = ["ring", "std", "logging", "tls12"] }
rcgen = "*"
quinn = { version = "*", default-features = false, features = ["runtime-tokio", "rustls-ring", "log"] }
