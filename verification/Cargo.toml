[package]
name = "mentedb"
version = "0.1.0"
edition = "2021"
publish = false

[dependencies]
bytemuck = "*"
parking_lot = "*"
rusqlite = { version = "*", features = ["bundled"] }
serde_json = "*"
sqlite-vec = "0.1"
uuid = { version = "1", features = ["v4"] }

[dev-dependencies]
tempfile = "*"
