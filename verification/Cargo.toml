[package]
name = "gemma4_fixture"
version = "0.1.0"
edition = "2021"
publish = false

[dependencies]
safetensors = "=0.8.0"
serde_json = "=1.0.154"
memmap2 = "=0.9.12"
tracing = "=0.1.44"
tokio = { version = "=1.54.1", features = ["macros", "rt-multi-thread", "time"] }
furiosa-opt-std = "=0.10.0"
