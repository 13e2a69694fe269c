[package]
name = "jmap_cluster"
version = "0.1.0"
edition = "2021"
publish = false

[dependencies]
roaring = "*"
rand = "0.8"
ece = "*"
base64 = "*"
serde = { version = "1", features = ["derive"] }
serde_json = "1"
reqwest = { version = "*", default-features = false }
tokio = { version = "1", features = ["macros", "rt-multi-thread", "sync", "time"] }
futures = "0.3"
mail-builder = "*"
parking_lot = "*"
