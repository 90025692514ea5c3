[package]
name = "prisma_crdt"
version = "0.1.0"
edition = "2021"
publish = false

[dependencies]
convert_case = "0.6"
serde = { version = "1", features = ["derive"] }
serde_json = "1"
uhlc = "0.5"
tokio = { version = "1", features = ["sync"] }
uuid = { version = "1", features = ["v4"] }
hostname = "0.3"
chrono = "0.4"
thiserror = "1"
quote = "1"
proc-macro2 = "1"
tracing = "0.1"

[dev-dependencies]
nom = "7"
