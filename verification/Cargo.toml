[package]
name = "nanoda"
version = "0.1.0"
edition = "2021"
publish = false

[dependencies]
hashbrown = "0.15"
indexmap = "2"
num-bigint = "0.4"
num-integer = "0.1"
num-traits = "0.2"
rustc-hash = "2"
serde = { version = "1", features = ["derive"] }
serde_json = "1"
