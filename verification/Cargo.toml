[package]
name = "snarkvid"
version = "0.1.0"
edition = "2021"
publish = false

[dependencies]
sha2 = "0.10"
ed25519-dalek = "2"
anyhow = "1"
clap = { version = "4", features = ["derive"] }
libm = "0.2"
