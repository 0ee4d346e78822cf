[package]
name = "cw_examples"
version = "0.1.0"
edition = "2021"
publish = false

[dependencies]
integer-sqrt = "0.1"
cosmwasm-std = "1.0"
cw-storage-plus = "0.13"
cw0 = "0.10"
cw721 = "0.13"
schemars = "0.8"
serde = { version = "1.0", default-features = false, features = ["derive"] }
thiserror = "1.0"
