[package]
name = "onnx_edit"
version = "0.1.0"
edition = "2021"
publish = false

[dependencies]
anyhow = "1"
clap = { version = "3.2", features = ["derive"] }
pretty_env_logger = "0.4"
prost = "0.11"
