[package]
name = "open_rdma_driver"
version = "0.1.0"
edition = "2021"
publish = false

[dependencies]
crc32fast = "1"
derive_builder = "*"
eui48 = "1"
flume = "0.11"
libc = "0.2"
log = "0.4"
parking_lot = "0.12"
rand = "0.8"
serde = { version = "1", features = ["derive"] }
serde_json = "1"
thiserror = "1"
