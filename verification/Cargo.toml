[package]
name = "paqus_node"
version = "0.1.0"
edition = "2021"
publish = false

[dependencies]
hex = "0.4"
borsh = { version = "1", features = ["derive"] }
serde = { version = "1", features = ["derive"] }
serde_json = "1"
axum = "0.8"
tokio = { version = "1", features = ["rt-multi-thread", "net", "time", "macros"] }
ctrlc = "3"
futures-util = "0.3"
