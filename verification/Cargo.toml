[package]
name = "powchain"
version = "0.1.0"
edition = "2021"
publish = false

[dependencies]
hex = "0.4"
once_cell = "1"
rand = "0.9"
secp256k1 = { version = "0.31", features = ["rand", "hashes", "recovery"] }
sha2 = "0.10"
thiserror = "1"
tokio = { version = "1", features = ["macros", "rt-multi-thread", "sync", "time"] }
uuid = { version = "1", features = ["v4"] }
