[package]
name = "pallet-transaction-storage"
version = "0.1.0"
edition = "2021"
publish = false

[dependencies]
frame-support = "*"
frame-system = "*"
parity-scale-codec = { version = "3", features = ["derive", "max-encoded-len"] }
scale-info = { version = "2", features = ["derive"] }
sp-io = "*"
sp-runtime = "*"
sp-std = "*"
sp-transaction-storage-proof = "*"
