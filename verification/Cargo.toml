[package]
name = "xion_chess"
version = "0.1.0"
edition = "2021"
publish = false

[dependencies]
shakmaty = "=0.27.3"
cosmwasm-std = "1"
cosmwasm-schema = "1"
cw-storage-plus = "1"
cw2 = "1"
schemars = "0.8"
serde = "1"
thiserror = "1"
