[package]
name = "blob_tx"
version = "0.1.0"
edition = "2021"
publish = false

[dependencies]
c-kzg = "*"
sha2 = "0.10"
tiny-keccak = { version = "2", features = ["keccak"] }
bytes = "1"
serde = { version = "1", features = ["derive"] }
tokio = { version = "1", features = ["sync"] }
async-trait = "0.1"
tracing = "0.1"
