[package]
name = "dagger"
version = "0.1.0"
edition = "2021"
publish = false

[dependencies]
petgraph = "=0.6.5"
dashmap = "=5.5.3"
uuid = { version = "=1.29.0", features = ["v4"] }
cuid2 = "=0.1.6"
zstd = "=0.13.4"
jsonschema = { version = "=0.60.2", default-features = false }
serde = { version = "=1.0.229", features = ["derive"] }
serde_json = { version = "=1.0.154", features = ["float_roundtrip", "unbounded_depth"] }
serde_yaml = "=0.9.34"
chrono = { version = "=0.4.45", features = ["serde"] }
tokio = { version = "=1.54.1", features = ["sync", "time", "rt", "rt-multi-thread", "macros", "fs"] }
anyhow = "=1.0.104"
async-trait = "=0.1.92"
async-broadcast = "=0.7.2"
futures = "=0.3.34"
parking_lot = "=0.12.5"
fastrand = "=2.5.0"
thiserror = "=1.0.69"
tracing = "=0.1.44"
sqlx = { version = "=0.8.6", default-features = false, features = ["runtime-tokio", "sqlite"] }
sled = "=0.34.7"
lazy_static = "=1.5.1"
linkme = "=0.3.37"
