[package]
name = "montelibero_transactions"
version = "0.1.0"
edition = "2021"
publish = false

[dependencies]
substrate-stellar-sdk = { version = "=0.3.0", default-features = false }
stellar-xdr = "*"
sha2 = "=0.10.9"
chrono = "=0.4.45"
serde = { version = "=1.0.229", features = ["derive"] }
serde_json = "=1.0.151"
hex = "=0.4.3"
