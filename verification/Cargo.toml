[package]
name = "codextract"
version = "0.1.0"
edition = "2021"
publish = false

[dependencies]
anyhow = "1"
docx-rs = "0.4"
encoding_rs_io = "0.1"
ignore = "0.4"
regex = "1"
serde = { version = "1", features = ["derive"] }
