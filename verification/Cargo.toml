[package]
name = "vaak_core"
version = "0.1.0"
edition = "2021"
publish = false

[dependencies]
hostname = "=0.4.2"
serde = { version = "=1.0.229", features = ["derive"] }
serde_json = "=1.0.154"
libc = "=0.2.191"
parking_lot = "=0.12.5"
once_cell = "=1.21.4"
ureq = { version = "=2.12.1", default-features = false }
hound = "3"
base64 = "0.22"
rusqlite = { version = "*", features = ["bundled"] }
