[package]
name = "workd"
version = "0.1.0"
edition = "2021"
publish = false

[dependencies]
prost = "=0.13.5"
sha2 = "=0.10.9"
tonic = "=0.12.3"
serde = { version = "=1.0.229", features = ["derive"] }
serde_json = "1"
clap = { version = "=4.6.7", features = ["derive"] }
