[package]
name = "database_test"
version = "0.1.0"
edition = "2021"
publish = false

[dependencies]
bincode = "1.3"
num-integer = "0.1"
num-traits = "0.2"
once_cell = "1"
rustbreak = { version = "2", features = ["bin_enc"] }
serde = { version = "1", features = ["derive"] }
serde_json = "1"
