[package]
name = "quota_dial"
version = "0.1.0"
edition = "2021"
publish = false

[dependencies]
async-trait = "*"
blake3 = "*"
chrono = "*"
dirs = "*"
log = "*"
notify = "*"
rusqlite = { version = "*", features = ["bundled"] }
serde = { version = "*", features = ["derive"] }
serde_json = "*"
thiserror = "*"
tiny-skia = "*"
tokio = { version = "*", features = ["full"] }
