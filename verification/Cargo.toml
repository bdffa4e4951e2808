[package]
name = "tessera"
version = "0.1.0"
edition = "2021"
publish = false

[dependencies]
blake3 = "1"
crossbeam-queue = "0.3"
shared_memory = "0.12"
libc = "0.2"
bytemuck = { version = "1", features = ["derive"] }
parking_lot = "0.12"
thiserror = "1"
pyo3 = { version = "0.22", features = ["extension-module", "abi3-py310"] }
