[package]
name = "ipnd"
version = "0.1.0"
edition = "2021"
publish = false

[dependencies]
clap = { version = "=4.5.61", features = ["derive"] }
ctrlc = "=3.5.2"

[dev-dependencies]
serde_cbor = "=0.11.2"
