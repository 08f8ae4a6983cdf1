[package]
name = "card_movement_simulator"
version = "0.1.0"
edition = "2021"
publish = false

[dependencies]
rand = "0.7"
serde = { version = "1", features = ["derive"] }
serde_cbor = "0.11"
thiserror = "1"
