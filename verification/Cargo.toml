[package]
name = "bitcask"
version = "0.1.0"
edition = "2021"
publish = false

[dependencies]
bincode = "1.3"
crc32fast = "1"
serde = { version = "1", features = ["derive"] }
thiserror = "1"
