[package]
name = "storage_extra"
version = "0.1.0"
edition = "2021"
publish = false

[dependencies]
cosmwasm-std = { version = "0.16", features = ["iterator"] }
cw-storage-plus = "0.9"
serde = { version = "1", features = ["derive"] }
