[package]
name = "rabin"
version = "0.1.0"
edition = "2021"
publish = false

[dependencies]
sha2 = "0.8"
sha3 = "0.8"
regex = "1"
clap = "2"
memmap = "0.7"
bincode = "1"
serde = { version = "1", features = ["derive"] }
serde_derive = "1"

[dev-dependencies]
rand = "0.8"
