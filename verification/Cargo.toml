[package]
name = "rbpf_runtime"
version = "0.1.0"
edition = "2021"
publish = false

[dependencies]
borsh = { version = "1", features = ["derive"] }
byteorder = "1"
sha256 = { version = "1", default-features = false }
solana_rbpf = "0.8"
bitcoin = "0.32"
rand = "0.8"
