[package]
name = "skeg_rigging"
version = "0.1.0"
edition = "2021"
publish = false

[dependencies]
bytes = "1"
serde = { version = "1", features = ["derive"] }
serde_json = "1"
thiserror = "2"
anyhow = "1"
ureq = { version = "2", default-features = false, features = ["json"] }
notify = "6"
parking_lot = "0.12"
tokio = { version = "1", features = ["rt", "rt-multi-thread"] }
async-trait = "0.1"
skeg-vector = "*"
