[package]
name = "lockstep_client"
version = "0.1.0"
edition = "2021"
publish = false

[dependencies]
anyhow = "1"
bincode = "1"
byteorder = "1"
fn-error-context = "0.2"
protobuf = "2"
serde = { version = "1", features = ["derive"] }
thiserror = "1"
