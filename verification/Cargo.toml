[package]
name = "nexus_store"
version = "0.1.0"
edition = "2021"
publish = false

[dependencies]
crc32c = "*"
bytes = "1"
futures = "0.3"
tokio = { version = "1", default-features = false, features = ["sync"] }
parking_lot = "0.12"
foldhash = "*"
serde = "1"
serde_json = "1"
thiserror = "*"
arrayvec = "0.7"
bytemuck = "1"

[dev-dependencies]
minicbor = { version = "*", features = ["alloc"] }
