[package]
name = "otap_dataflow"
version = "0.1.0"
edition = "2021"
publish = false

[dependencies]
async-trait = "0.1"
azure_core = "=1.1.0"
azure_identity = { version = "=1.0.0", features = ["tokio"] }
cpu-time = "=1.0.0"
http = "=1.5.0"
rand = "=0.10.3"
serde = { version = "1", features = ["derive"] }
serde_json = "1"
tokio = { version = "=1.54.1", features = ["macros", "rt", "sync", "time"] }
tonic = { version = "=0.14.9", default-features = false }
tonic-middleware = "=0.4.1"
