[package]
name = "qwen3-moe"
version = "0.1.0"
edition = "2021"
publish = false

[dependencies]
anyhow = "1"
bytemuck = "1"
half = "2"
thiserror = "1"
tracing = "0.1"
